//! Syntax highlighting of pretty-printed JSON into annotated spans: each
//! span knows its role, the dotted path of the key it belongs to, and (for
//! values) an identifier used for hovering and clicking.
use vstd::prelude::*;

use crate::matcher::trailing_backslashes;
use crate::text::{
    char_is_numeric, char_is_whitespace, find_char_from, first_index, is_numeric, is_whitespace,
    lemma_first_index, push_char, string_from_range, chars_of, chars_range,
};
use crate::theme::{JsonStyle, TextStyle, plain_style};

verus! {

/// Semantic role of a span in the rendered JSON.
#[derive(Debug, Clone, Copy, PartialEq, Eq)]
pub enum JsonSpanKind {
    Key,
    StringValue,
    NumberValue,
    BooleanValue,
    Punctuation,
    Whitespace,
}

/// A piece of highlighted JSON text.
#[derive(Debug)]
pub struct AnnotatedSpan {
    /// The text of the span.
    pub content: String,
    /// Its style.
    pub style: TextStyle,
    /// Its role.
    pub kind: JsonSpanKind,
    /// The dotted key path a value (or key) belongs to.
    pub key_context: Option<String>,
    /// Identifier of a value span (keys, punctuation and whitespace have none).
    pub span_id: Option<usize>,
}

/// The mathematical content of an [`AnnotatedSpan`].
pub struct SpanSpec {
    pub content: Seq<char>,
    pub style: TextStyle,
    pub kind: JsonSpanKind,
    pub key_context: Option<Seq<char>>,
    pub span_id: Option<nat>,
}

/// The view of an optional string.
pub open spec fn opt_view(o: Option<String>) -> Option<Seq<char>> {
    match o {
        Some(s) => Some(s@),
        None => None,
    }
}

impl AnnotatedSpan {
    pub open spec fn spec_view(&self) -> SpanSpec {
        SpanSpec {
            content: self.content@,
            style: self.style,
            kind: self.kind,
            key_context: opt_view(self.key_context),
            span_id: match self.span_id {
                Some(i) => Some(i as nat),
                None => None,
            },
        }
    }
}

/// The views of a line of spans.
pub open spec fn spans_view(v: Seq<AnnotatedSpan>) -> Seq<SpanSpec> {
    v.map_values(|s: AnnotatedSpan| s.spec_view())
}

/// The views of a document of lines.
pub open spec fn lines_view(v: Seq<Vec<AnnotatedSpan>>) -> Seq<Seq<SpanSpec>> {
    v.map_values(|l: Vec<AnnotatedSpan>| spans_view(l@))
}

/// The highlighter's state: the key at each nesting level (none for array
/// levels and before the first key) and the next span identifier.
pub struct ParserSpec {
    pub stack: Seq<Option<Seq<char>>>,
    pub next_id: nat,
}

/// The non-empty keys of `stack`, joined with dots.
pub open spec fn path_of(stack: Seq<Option<Seq<char>>>) -> Seq<char>
    decreases stack.len(),
{
    if stack.len() == 0 {
        Seq::empty()
    } else {
        let p = path_of(stack.drop_last());
        match stack.last() {
            Some(k) => if k.len() > 0 {
                if p.len() == 0 {
                    k
                } else {
                    p + seq!['.'] + k
                }
            } else {
                p
            },
            None => p,
        }
    }
}

/// The key context of the current position (none at the top level).
pub open spec fn context_of(stack: Seq<Option<Seq<char>>>) -> Option<Seq<char>> {
    let p = path_of(stack);
    if p.len() == 0 {
        None
    } else {
        Some(p)
    }
}

/// The state at the start of a document.
pub open spec fn initial_parser() -> ParserSpec {
    ParserSpec { stack: seq![None], next_id: 1 }
}

/// Sets the key of the innermost level.
pub open spec fn with_key(st: ParserSpec, key: Seq<char>) -> ParserSpec {
    ParserSpec { stack: st.stack.update(st.stack.len() - 1, Some(key)), next_id: st.next_id }
}

/// Opens a nesting level.
pub open spec fn pushed(st: ParserSpec) -> ParserSpec {
    ParserSpec { stack: st.stack.push(None), next_id: st.next_id }
}

/// Closes a nesting level (the outermost level is never closed).
pub open spec fn popped(st: ParserSpec) -> ParserSpec {
    if st.stack.len() > 1 {
        ParserSpec { stack: st.stack.drop_last(), next_id: st.next_id }
    } else {
        st
    }
}

/// Uses up one span identifier.
pub open spec fn bumped(st: ParserSpec) -> ParserSpec {
    ParserSpec { stack: st.stack, next_id: st.next_id + 1 }
}

/// A span.
pub open spec fn span(
    content: Seq<char>,
    style: TextStyle,
    kind: JsonSpanKind,
    key_context: Option<Seq<char>>,
    span_id: Option<nat>,
) -> SpanSpec {
    SpanSpec { content, style, kind, key_context, span_id }
}

/// Characters that end a bare token.
pub open spec fn is_token_break(c: char) -> bool {
    char_is_whitespace(c) || c == ',' || c == '}' || c == ']' || c == '{' || c == '[' || c == ':'
}

/// First position in `pos..hi` that is not whitespace (or `hi`).
pub open spec fn skip_ws(cs: Seq<char>, pos: int, hi: int) -> int
    decreases hi - pos,
{
    if pos >= hi {
        hi
    } else if char_is_whitespace(cs[pos]) {
        skip_ws(cs, pos + 1, hi)
    } else {
        pos
    }
}

/// First position in `pos..hi` holding a token break (or `hi`).
pub open spec fn next_break(cs: Seq<char>, pos: int, hi: int) -> int
    decreases hi - pos,
{
    if pos >= hi {
        hi
    } else if is_token_break(cs[pos]) {
        pos
    } else {
        next_break(cs, pos + 1, hi)
    }
}

/// `next_break` lies in `pos..=hi` when `pos <= hi`.
pub proof fn lemma_next_break_bounds(cs: Seq<char>, pos: int, hi: int)
    requires
        pos <= hi,
    ensures
        pos <= next_break(cs, pos, hi) <= hi,
    decreases hi - pos,
{
    if pos < hi && !is_token_break(cs[pos]) {
        lemma_next_break_bounds(cs, pos + 1, hi);
    }
}

/// `skip_ws` lies in `pos..=hi` when `pos <= hi`.
pub proof fn lemma_skip_ws_bounds(cs: Seq<char>, pos: int, hi: int)
    requires
        pos <= hi,
    ensures
        pos <= skip_ws(cs, pos, hi) <= hi,
    decreases hi - pos,
{
    if pos < hi && char_is_whitespace(cs[pos]) {
        lemma_skip_ws_bounds(cs, pos + 1, hi);
    }
}

/// End of the token starting at `t`: up to the next break, or the single
/// break character itself.
pub open spec fn token_end(cs: Seq<char>, t: int, hi: int) -> int {
    let b = next_break(cs, t, hi);
    if b == t {
        t + 1
    } else {
        b
    }
}

/// `true`, `false` or `null`.
pub open spec fn is_literal_token(t: Seq<char>) -> bool {
    t == "true"@ || t == "false"@ || t == "null"@
}

/// Characters that may appear in a number.
pub open spec fn is_number_char(c: char) -> bool {
    char_is_numeric(c) || c == '.' || c == '-' || c == 'e' || c == 'E' || c == '+'
}

/// A non-empty token of number characters with at least one digit.
pub open spec fn is_number_token(t: Seq<char>) -> bool {
    &&& t.len() > 0
    &&& forall|i: int| 0 <= i < t.len() ==> is_number_char(#[trigger] t[i])
    &&& exists|i: int| 0 <= i < t.len() && char_is_numeric(#[trigger] t[i])
}

/// The span of a bare token and the state after it: literals and numbers
/// are values (with the current key context and the next identifier);
/// brackets open and close nesting levels.
pub open spec fn token_step(t: Seq<char>, style: JsonStyle, st: ParserSpec) -> (SpanSpec, ParserSpec) {
    if is_literal_token(t) {
        (
            span(t, TextStyle { fg: Some(style.boolean), bg: None, bold: false }, JsonSpanKind::BooleanValue, context_of(st.stack), Some(st.next_id)),
            bumped(st),
        )
    } else if is_number_token(t) {
        (
            span(t, TextStyle { fg: Some(style.number), bg: None, bold: false }, JsonSpanKind::NumberValue, context_of(st.stack), Some(st.next_id)),
            bumped(st),
        )
    } else {
        let st2 = if t == seq!['{'] || t == seq!['['] {
            pushed(st)
        } else if t == seq!['}'] || t == seq![']'] {
            popped(st)
        } else {
            st
        };
        (span(t, plain_style(), JsonSpanKind::Punctuation, None, None), st2)
    }
}

/// Spans of the unquoted text `cs[pos..hi]`: runs of whitespace, then tokens.
pub open spec fn unquoted_spans(cs: Seq<char>, pos: int, hi: int, style: JsonStyle, st: ParserSpec) -> (Seq<SpanSpec>, ParserSpec)
    decreases hi - pos,
{
    if pos >= hi {
        (Seq::empty(), st)
    } else {
        let t = skip_ws(cs, pos, hi);
        let ws: Seq<SpanSpec> = if t > pos {
            seq![span(cs.subrange(pos, t), plain_style(), JsonSpanKind::Whitespace, None, None)]
        } else {
            Seq::empty()
        };
        if t >= hi {
            (ws, st)
        } else {
            let e = token_end(cs, t, hi);
            proof {
                lemma_skip_ws_bounds(cs, pos, hi);
                lemma_next_break_bounds(cs, t, hi);
            }
            let (sp, st2) = token_step(cs.subrange(t, e), style, st);
            let (rest, st3) = unquoted_spans(cs, e, hi, style, st2);
            (ws + seq![sp] + rest, st3)
        }
    }
}

/// The character at `q` is escaped by an odd run of backslashes after `lo`.
pub open spec fn escaped_after(cs: Seq<char>, lo: int, q: int) -> bool {
    trailing_backslashes(cs.subrange(lo, q)) % 2 == 1
}

/// Position of the next double quote at or after `from` (or `cs.len()`).
pub open spec fn next_quote(cs: Seq<char>, from: int) -> int {
    from + first_index(cs.subrange(from, cs.len() as int), '"')
}

/// The first double quote at or after `search` that is not escaped within
/// `cs[lo..]`.
pub open spec fn closing_quote(cs: Seq<char>, lo: int, search: int) -> Option<int>
    decreases cs.len() - search,
{
    if search < 0 || search > cs.len() {
        None
    } else {
        let q = next_quote(cs, search);
        if q >= cs.len() || q < search {
            None
        } else if !escaped_after(cs, lo, q) {
            Some(q)
        } else {
            closing_quote(cs, lo, q + 1)
        }
    }
}

/// A closing quote found from `search` lies at or after `search`.
pub proof fn lemma_closing_quote_after(cs: Seq<char>, lo: int, search: int)
    ensures
        closing_quote(cs, lo, search) matches Some(q) ==> search <= q < cs.len(),
    decreases cs.len() - search,
{
    if 0 <= search <= cs.len() {
        let q = next_quote(cs, search);
        if !(q >= cs.len() || q < search) && escaped_after(cs, lo, q) {
            lemma_closing_quote_after(cs, lo, q + 1);
        }
    }
}

/// The text after `from` continues, past whitespace, with a colon.
pub open spec fn colon_follows(cs: Seq<char>, from: int) -> bool {
    let j = skip_ws(cs, from, cs.len() as int);
    j < cs.len() && cs[j] == ':'
}

/// Spans of the line `cs` from `pos`, with the state after them.
pub open spec fn line_spans(cs: Seq<char>, pos: int, style: JsonStyle, st: ParserSpec) -> (Seq<SpanSpec>, ParserSpec)
    decreases cs.len() - pos,
{
    if pos < 0 || pos >= cs.len() {
        (Seq::empty(), st)
    } else {
        let q = next_quote(cs, pos);
        if q >= cs.len() || q < pos {
            unquoted_spans(cs, pos, cs.len() as int, style, st)
        } else if escaped_after(cs, pos, q) {
            let sp = span(cs.subrange(pos, q + 1), plain_style(), JsonSpanKind::StringValue, context_of(st.stack), Some(st.next_id));
            let (rest, st2) = line_spans(cs, q + 1, style, bumped(st));
            (seq![sp] + rest, st2)
        } else {
            let (pre, st1) = unquoted_spans(cs, pos, q, style, st);
            match closing_quote(cs, q + 1, q + 1) {
                Some(ep) => {
                    proof {
                        lemma_closing_quote_after(cs, q + 1, q + 1);
                    }
                    let quoted = cs.subrange(q + 1, ep);
                    let text = seq!['"'] + quoted + seq!['"'];
                    if colon_follows(cs, ep + 1) {
                        let st2 = with_key(st1, quoted);
                        let sp = span(text, TextStyle { fg: Some(style.key), bg: None, bold: true }, JsonSpanKind::Key, context_of(st2.stack), None);
                        let (rest, st3) = line_spans(cs, ep + 1, style, st2);
                        (pre + seq![sp] + rest, st3)
                    } else {
                        let sp = span(text, TextStyle { fg: Some(style.string), bg: None, bold: false }, JsonSpanKind::StringValue, context_of(st1.stack), Some(st1.next_id));
                        let (rest, st3) = line_spans(cs, ep + 1, style, bumped(st1));
                        (pre + seq![sp] + rest, st3)
                    }
                },
                None => {
                    let sp = span(cs.subrange(pos, cs.len() as int), TextStyle { fg: Some(style.string), bg: None, bold: false }, JsonSpanKind::StringValue, context_of(st1.stack), Some(st1.next_id));
                    (pre + seq![sp], bumped(st1))
                },
            }
        }
    }
}

/// `l` without one trailing carriage return.
pub open spec fn strip_cr(l: Seq<char>) -> Seq<char> {
    if l.len() > 0 && l.last() == '\r' {
        l.drop_last()
    } else {
        l
    }
}

/// The lines of a text as `str::lines` yields them: the pieces between line
/// feeds, with no piece after a final line feed; a piece ended by a line
/// feed drops one carriage return before it (a `\r\n` ending), and the last
/// piece, with no line feed after it, keeps its characters.
pub open spec fn text_lines(s: Seq<char>) -> Seq<Seq<char>>
    decreases s.len(),
{
    if s.len() == 0 {
        Seq::empty()
    } else {
        let k = first_index(s, '\n');
        if k < s.len() {
            proof {
                lemma_first_index(s, '\n');
            }
            seq![strip_cr(s.subrange(0, k))] + text_lines(s.subrange(k + 1, s.len() as int))
        } else {
            seq![s]
        }
    }
}

/// Spans of each of `lines`, with the state threaded from line to line.
pub open spec fn document_spans(lines: Seq<Seq<char>>, style: JsonStyle, st: ParserSpec) -> Seq<Seq<SpanSpec>>
    decreases lines.len(),
{
    if lines.len() == 0 {
        Seq::empty()
    } else {
        let (l, st2) = line_spans(lines[0], 0, style, st);
        seq![l] + document_spans(lines.drop_first(), style, st2)
    }
}

/// The highlighted lines of a JSON text.
pub open spec fn highlighted(json: Seq<char>, style: JsonStyle) -> Seq<Seq<SpanSpec>> {
    document_spans(text_lines(json), style, initial_parser())
}

/// The texts of `spans`, joined.
pub open spec fn contents(spans: Seq<SpanSpec>) -> Seq<char>
    decreases spans.len(),
{
    if spans.len() == 0 {
        Seq::empty()
    } else {
        contents(spans.drop_last()) + spans.last().content
    }
}

/// The text of a single span.
pub proof fn lemma_contents_single(x: SpanSpec)
    ensures
        contents(seq![x]) == x.content,
{
    assert(seq![x].drop_last() =~= Seq::<SpanSpec>::empty());
    assert(seq![x].last() == x);
    assert(contents(Seq::<SpanSpec>::empty()) =~= Seq::<char>::empty());
    assert(Seq::<char>::empty() + x.content =~= x.content);
}

/// Joining texts distributes over concatenation.
pub proof fn lemma_contents_append(a: Seq<SpanSpec>, b: Seq<SpanSpec>)
    ensures
        contents(a + b) == contents(a) + contents(b),
    decreases b.len(),
{
    if b.len() == 0 {
        assert(a + b =~= a);
        assert(contents(b) =~= Seq::<char>::empty());
        assert(contents(a) + contents(b) =~= contents(a));
    } else {
        lemma_contents_append(a, b.drop_last());
        assert((a + b).drop_last() =~= a + b.drop_last());
        assert((a + b).last() == b.last());
        assert(contents(a + b) =~= contents(a) + contents(b));
    }
}

/// The spans of unquoted text reproduce it.
pub proof fn lemma_unquoted_contents(cs: Seq<char>, pos: int, hi: int, style: JsonStyle, st: ParserSpec)
    requires
        0 <= pos <= hi <= cs.len(),
    ensures
        contents(unquoted_spans(cs, pos, hi, style, st).0) == cs.subrange(pos, hi),
    decreases hi - pos,
{
    if pos >= hi {
        assert(cs.subrange(pos, hi) =~= Seq::<char>::empty());
    } else {
        let t = skip_ws(cs, pos, hi);
        lemma_skip_ws_bounds(cs, pos, hi);
        let ws: Seq<SpanSpec> = if t > pos {
            seq![span(cs.subrange(pos, t), plain_style(), JsonSpanKind::Whitespace, None, None)]
        } else {
            Seq::empty()
        };
        assert(contents(ws) == cs.subrange(pos, t)) by {
            if t > pos {
                lemma_contents_single(span(cs.subrange(pos, t), plain_style(), JsonSpanKind::Whitespace, None, None));
            } else {
                assert(cs.subrange(pos, t) =~= Seq::<char>::empty());
            }
        }
        if t < hi {
            let e = token_end(cs, t, hi);
            lemma_next_break_bounds(cs, t, hi);
            let (sp, st2) = token_step(cs.subrange(t, e), style, st);
            lemma_unquoted_contents(cs, e, hi, style, st2);
            let rest = unquoted_spans(cs, e, hi, style, st2).0;
            lemma_contents_append(ws, seq![sp]);
            lemma_contents_append(ws + seq![sp], rest);
            lemma_contents_single(sp);
            assert(sp.content == cs.subrange(t, e));
            assert(cs.subrange(pos, hi) =~= cs.subrange(pos, t) + cs.subrange(t, e) + cs.subrange(e, hi));
        }
    }
}

/// A closing quote found by `closing_quote` is a double quote.
pub proof fn lemma_closing_quote_is_quote(cs: Seq<char>, lo: int, search: int)
    ensures
        closing_quote(cs, lo, search) matches Some(q) ==> search <= q < cs.len() && cs[q] == '"',
    decreases cs.len() - search,
{
    if 0 <= search <= cs.len() {
        let q = next_quote(cs, search);
        lemma_first_index(cs.subrange(search, cs.len() as int), '"');
        if !(q >= cs.len() || q < search) {
            assert(cs[q] == cs.subrange(search, cs.len() as int)[q - search]);
            if escaped_after(cs, lo, q) {
                lemma_closing_quote_is_quote(cs, lo, q + 1);
            }
        }
    }
}

/// The highlighter reproduces the text of the line from `pos`: every
/// string left unclosed at the end of the line starts where the unquoted
/// text before it ends (the unclosed case repeats that text otherwise).
pub open spec fn text_kept(cs: Seq<char>, pos: int) -> bool
    decreases cs.len() - pos,
{
    if pos < 0 || pos >= cs.len() {
        true
    } else {
        let q = next_quote(cs, pos);
        if q >= cs.len() || q < pos {
            true
        } else if escaped_after(cs, pos, q) {
            text_kept(cs, q + 1)
        } else {
            match closing_quote(cs, q + 1, q + 1) {
                Some(ep) => if q + 1 <= ep < cs.len() { text_kept(cs, ep + 1) } else { false },
                None => q == pos,
            }
        }
    }
}

/// Where `text_kept` holds, the spans of a line reproduce its text.
#[verifier::rlimit(50)]
pub proof fn lemma_line_contents(cs: Seq<char>, pos: int, style: JsonStyle, st: ParserSpec)
    requires
        0 <= pos <= cs.len(),
        text_kept(cs, pos),
    ensures
        contents(line_spans(cs, pos, style, st).0) == cs.subrange(pos, cs.len() as int),
    decreases cs.len() - pos,
{
    if pos >= cs.len() {
        assert(cs.subrange(pos, cs.len() as int) =~= Seq::<char>::empty());
    } else {
        let q = next_quote(cs, pos);
        lemma_first_index(cs.subrange(pos, cs.len() as int), '"');
        if q >= cs.len() || q < pos {
            lemma_unquoted_contents(cs, pos, cs.len() as int, style, st);
        } else {
            assert(cs[q] == cs.subrange(pos, cs.len() as int)[q - pos]);
            if escaped_after(cs, pos, q) {
                let sp = span(cs.subrange(pos, q + 1), plain_style(), JsonSpanKind::StringValue, context_of(st.stack), Some(st.next_id));
                lemma_line_contents(cs, q + 1, style, bumped(st));
                let rest = line_spans(cs, q + 1, style, bumped(st)).0;
                lemma_contents_append(seq![sp], rest);
                lemma_contents_single(sp);
                assert(cs.subrange(pos, cs.len() as int) =~= cs.subrange(pos, q + 1) + cs.subrange(q + 1, cs.len() as int));
            } else {
                let (pre, st1) = unquoted_spans(cs, pos, q, style, st);
                lemma_unquoted_contents(cs, pos, q, style, st);
                lemma_closing_quote_is_quote(cs, q + 1, q + 1);
                match closing_quote(cs, q + 1, q + 1) {
                    Some(ep) => {
                        let quoted = cs.subrange(q + 1, ep);
                        let text = seq!['"'] + quoted + seq!['"'];
                        assert(text =~= cs.subrange(q, ep + 1));
                        let st2 = if colon_follows(cs, ep + 1) { with_key(st1, quoted) } else { bumped(st1) };
                        lemma_line_contents(cs, ep + 1, style, st2);
                        let sp = line_spans(cs, pos, style, st).0;
                        let rest = line_spans(cs, ep + 1, style, st2).0;
                        let mid = if colon_follows(cs, ep + 1) {
                            span(text, TextStyle { fg: Some(style.key), bg: None, bold: true }, JsonSpanKind::Key, context_of(st2.stack), None)
                        } else {
                            span(text, TextStyle { fg: Some(style.string), bg: None, bold: false }, JsonSpanKind::StringValue, context_of(st1.stack), Some(st1.next_id))
                        };
                        assert(sp == pre + seq![mid] + rest);
                        lemma_contents_append(pre, seq![mid]);
                        lemma_contents_append(pre + seq![mid], rest);
                        lemma_contents_single(mid);
                        assert(cs.subrange(pos, cs.len() as int) =~= cs.subrange(pos, q) + cs.subrange(q, ep + 1) + cs.subrange(ep + 1, cs.len() as int));
                    },
                    None => {
                        let sp = span(cs.subrange(pos, cs.len() as int), TextStyle { fg: Some(style.string), bg: None, bold: false }, JsonSpanKind::StringValue, context_of(st1.stack), Some(st1.next_id));
                        assert(pre =~= Seq::<SpanSpec>::empty()) by {
                            assert(q == pos);
                        }
                        lemma_contents_single(sp);
                        assert(pre + seq![sp] =~= seq![sp]);
                    },
                }
            }
        }
    }
}

/// The highlighted document has one line of spans per line, and each line
/// whose text is kept is reproduced by its spans.
pub proof fn lemma_document_contents(lines: Seq<Seq<char>>, style: JsonStyle, st: ParserSpec, i: int)
    requires
        0 <= i < lines.len(),
        text_kept(lines[i], 0),
    ensures
        document_spans(lines, style, st).len() == lines.len(),
        contents(document_spans(lines, style, st)[i]) == lines[i],
    decreases lines.len(),
{
    let (l, st2) = line_spans(lines[0], 0, style, st);
    let rest = document_spans(lines.drop_first(), style, st2);
    lemma_document_len(lines.drop_first(), style, st2);
    if i == 0 {
        lemma_line_contents(lines[0], 0, style, st);
        assert(lines[0].subrange(0, lines[0].len() as int) =~= lines[0]);
    } else {
        assert(lines.drop_first()[i - 1] == lines[i]);
        lemma_document_contents(lines.drop_first(), style, st2, i - 1);
    }
}

/// The highlighted document has one line of spans per line.
pub proof fn lemma_document_len(lines: Seq<Seq<char>>, style: JsonStyle, st: ParserSpec)
    ensures
        document_spans(lines, style, st).len() == lines.len(),
    decreases lines.len(),
{
    if lines.len() > 0 {
        let (l, st2) = line_spans(lines[0], 0, style, st);
        lemma_document_len(lines.drop_first(), style, st2);
    }
}

/// Identifiers used by the spans of `cs[pos..hi]` are at most `hi - pos`.
pub proof fn lemma_unquoted_ids(cs: Seq<char>, pos: int, hi: int, style: JsonStyle, st: ParserSpec)
    ensures
        unquoted_spans(cs, pos, hi, style, st).1.next_id <= st.next_id + (if hi > pos { hi - pos } else { 0 }),
        unquoted_spans(cs, pos, hi, style, st).1.stack.len() >= 1 <== st.stack.len() >= 1,
    decreases hi - pos,
{
    if pos < hi {
        let t = skip_ws(cs, pos, hi);
        lemma_skip_ws_bounds(cs, pos, hi);
        if t < hi {
            let e = token_end(cs, t, hi);
            lemma_next_break_bounds(cs, t, hi);
            let (sp, st2) = token_step(cs.subrange(t, e), style, st);
            lemma_unquoted_ids(cs, e, hi, style, st2);
        }
    }
}

/// Identifiers used by the spans of a line from `pos` are at most its remaining length.
pub proof fn lemma_line_ids(cs: Seq<char>, pos: int, style: JsonStyle, st: ParserSpec)
    requires
        0 <= pos,
    ensures
        line_spans(cs, pos, style, st).1.next_id <= st.next_id + (if cs.len() > pos { cs.len() - pos } else { 0 }),
        line_spans(cs, pos, style, st).1.stack.len() >= 1 <== st.stack.len() >= 1,
    decreases cs.len() - pos,
{
    if pos < cs.len() {
        let q = next_quote(cs, pos);
        lemma_first_index(cs.subrange(pos, cs.len() as int), '"');
        if q >= cs.len() {
            lemma_unquoted_ids(cs, pos, cs.len() as int, style, st);
        } else if escaped_after(cs, pos, q) {
            lemma_line_ids(cs, q + 1, style, bumped(st));
        } else {
            let (pre, st1) = unquoted_spans(cs, pos, q, style, st);
            lemma_unquoted_ids(cs, pos, q, style, st);
            lemma_closing_quote_after(cs, q + 1, q + 1);
            match closing_quote(cs, q + 1, q + 1) {
                Some(ep) => {
                    if colon_follows(cs, ep + 1) {
                        lemma_line_ids(cs, ep + 1, style, with_key(st1, cs.subrange(q + 1, ep)));
                    } else {
                        lemma_line_ids(cs, ep + 1, style, bumped(st1));
                    }
                },
                None => {},
            }
        }
    }
}

/// The highlighter's state.
pub struct JsonParserState {
    /// The key at each nesting level (`None` for array levels and before the first key).
    pub stack: Vec<Option<String>>,
    /// The dotted path of the non-empty keys of the stack, when there is one.
    pub current_path: Option<String>,
    /// The identifier of the next value span.
    pub next_span_id: usize,
}

impl JsonParserState {
    pub open spec fn spec_view(&self) -> ParserSpec {
        ParserSpec {
            stack: self.stack@.map_values(|o: Option<String>| opt_view(o)),
            next_id: self.next_span_id as nat,
        }
    }

    /// The stack is non-empty and the cached path is the path of the stack.
    pub open spec fn wf(&self) -> bool {
        &&& self.stack@.len() >= 1
        &&& opt_view(self.current_path) == context_of(self.spec_view().stack)
    }

    /// The state at the start of a document: one level, no key, identifiers from 1.
    pub fn new() -> (st: JsonParserState)
        ensures
            st.wf(),
            st.spec_view() == initial_parser(),
    {
        let mut stack: Vec<Option<String>> = Vec::new();
        stack.push(None);
        let st = JsonParserState { stack, current_path: None, next_span_id: 1 };
        assert(st.spec_view().stack =~= seq![None::<Seq<char>>]);
        assert(path_of(st.spec_view().stack.drop_last()) == Seq::<char>::empty());
        st
    }

    /// Hands out the next span identifier.
    pub fn next_id(&mut self) -> (id: usize)
        requires
            old(self).next_span_id < usize::MAX,
        ensures
            id == old(self).next_span_id,
            final(self).spec_view() == bumped(old(self).spec_view()),
            final(self).current_path == old(self).current_path,
    {
        let id = self.next_span_id;
        self.next_span_id += 1;
        id
    }

    /// The dotted key path of the current position.
    pub fn current_key(&self) -> (k: Option<String>)
        requires
            self.wf(),
        ensures
            opt_view(k) == context_of(self.spec_view().stack),
    {
        match &self.current_path {
            Some(p) => Some(p.clone()),
            None => None,
        }
    }

    /// Recomputes the cached path from the stack.
    pub fn rebuild_path(&mut self)
        requires
            old(self).stack@.len() >= 1,
        ensures
            final(self).wf(),
            final(self).spec_view() == old(self).spec_view(),
    {
        let ghost sv = self.spec_view().stack;
        let mut path = String::new();
        let mut i: usize = 0;
        while i < self.stack.len()
            invariant
                0 <= i <= self.stack@.len(),
                sv == self.stack@.map_values(|o: Option<String>| opt_view(o)),
                path@ == path_of(sv.take(i as int)),
            decreases self.stack@.len() - i,
        {
            assert(sv.take(i + 1).drop_last() == sv.take(i as int));
            assert(sv.take(i + 1).last() == opt_view(self.stack@[i as int]));
            match &self.stack[i] {
                Some(k) => {
                    if !k.as_str().is_empty() {
                        if !path.as_str().is_empty() {
                            push_char(&mut path, '.');
                        }
                        crate::text::append_str(&mut path, k.as_str());
                    }
                },
                None => {},
            }
            i += 1;
        }
        assert(sv.take(sv.len() as int) == sv);
        if path.as_str().is_empty() {
            self.current_path = None;
        } else {
            self.current_path = Some(path);
        }
    }

    /// Sets the key of the innermost level.
    pub fn update_key(&mut self, key: String)
        requires
            old(self).stack@.len() >= 1,
        ensures
            final(self).wf(),
            final(self).spec_view() == with_key(old(self).spec_view(), key@),
    {
        let last = self.stack.len() - 1;
        self.stack.set(last, Some(key));
        assert(self.spec_view().stack =~= with_key(old(self).spec_view(), key@).stack);
        self.rebuild_path();
    }

    /// Opens an object level.
    pub fn push_object(&mut self)
        requires
            old(self).wf(),
        ensures
            final(self).wf(),
            final(self).spec_view() == pushed(old(self).spec_view()),
    {
        self.stack.push(None);
        assert(self.spec_view().stack =~= pushed(old(self).spec_view()).stack);
        assert(self.spec_view().stack.drop_last() == old(self).spec_view().stack);
    }

    /// Opens an array level.
    pub fn push_array(&mut self)
        requires
            old(self).wf(),
        ensures
            final(self).wf(),
            final(self).spec_view() == pushed(old(self).spec_view()),
    {
        self.push_object();
    }

    /// Closes a level (the outermost level stays).
    pub fn pop(&mut self)
        requires
            old(self).wf(),
        ensures
            final(self).wf(),
            final(self).spec_view() == popped(old(self).spec_view()),
    {
        if self.stack.len() > 1 {
            self.stack.pop();
            assert(self.spec_view().stack =~= old(self).spec_view().stack.drop_last());
            self.rebuild_path();
        }
    }
}

fn skip_ws_exec(cs: &[char], pos: usize, hi: usize) -> (r: usize)
    requires
        pos <= hi <= cs@.len(),
    ensures
        r == skip_ws(cs@, pos as int, hi as int),
        pos <= r <= hi,
    decreases hi - pos,
{
    if pos >= hi {
        hi
    } else if is_whitespace(cs[pos]) {
        skip_ws_exec(cs, pos + 1, hi)
    } else {
        pos
    }
}

fn next_break_exec(cs: &[char], pos: usize, hi: usize) -> (r: usize)
    requires
        pos <= hi <= cs@.len(),
    ensures
        r == next_break(cs@, pos as int, hi as int),
        pos <= r <= hi,
    decreases hi - pos,
{
    if pos >= hi {
        hi
    } else {
        let c = cs[pos];
        if is_whitespace(c) || c == ',' || c == '}' || c == ']' || c == '{' || c == '[' || c == ':' {
            pos
        } else {
            next_break_exec(cs, pos + 1, hi)
        }
    }
}

fn range_equals(cs: &[char], from: usize, to: usize, lit: &[char]) -> (r: bool)
    requires
        from <= to <= cs@.len(),
    ensures
        r == (cs@.subrange(from as int, to as int) == lit@),
{
    if to - from != lit.len() {
        return false;
    }
    let r = crate::text::matches_at(cs, lit, from);
    r
}

fn is_literal_exec(cs: &[char], from: usize, to: usize) -> (r: bool)
    requires
        from <= to <= cs@.len(),
    ensures
        r == is_literal_token(cs@.subrange(from as int, to as int)),
{
    proof {
        reveal_strlit("true");
        reveal_strlit("false");
        reveal_strlit("null");
    }
    let tr: Vec<char> = vec!['t', 'r', 'u', 'e'];
    let fa: Vec<char> = vec!['f', 'a', 'l', 's', 'e'];
    let nu: Vec<char> = vec!['n', 'u', 'l', 'l'];
    assert(tr@ == "true"@);
    assert(fa@ == "false"@);
    assert(nu@ == "null"@);
    range_equals(cs, from, to, tr.as_slice()) || range_equals(cs, from, to, fa.as_slice())
        || range_equals(cs, from, to, nu.as_slice())
}

fn is_number_exec(cs: &[char], from: usize, to: usize) -> (r: bool)
    requires
        from <= to <= cs@.len(),
    ensures
        r == is_number_token(cs@.subrange(from as int, to as int)),
{
    let ghost t = cs@.subrange(from as int, to as int);
    let mut all = true;
    let mut any = false;
    let mut i: usize = from;
    while i < to
        invariant
            from <= i <= to <= cs@.len(),
            t == cs@.subrange(from as int, to as int),
            all == forall|j: int| 0 <= j < i - from ==> is_number_char(#[trigger] t[j]),
            any == exists|j: int| 0 <= j < i - from && char_is_numeric(#[trigger] t[j]),
        decreases to - i,
    {
        let c = cs[i];
        assert(t[i - from] == c);
        let num = is_numeric(c);
        if !(num || c == '.' || c == '-' || c == 'e' || c == 'E' || c == '+') {
            all = false;
        }
        if num {
            any = true;
        }
        proof {
            let k = i - from;
            if !all {
                if !(forall|j: int| 0 <= j < k ==> is_number_char(#[trigger] t[j])) {
                    let j = choose|j: int| 0 <= j < k && !is_number_char(#[trigger] t[j]);
                    assert(0 <= j < k + 1 && !is_number_char(t[j]));
                }
            }
            if any && !num {
                let j = choose|j: int| 0 <= j < k && char_is_numeric(#[trigger] t[j]);
                assert(0 <= j < k + 1 && char_is_numeric(t[j]));
            }
            if num {
                assert(0 <= k < k + 1 && char_is_numeric(t[k]));
            }
        }
        i += 1;
    }
    to > from && all && any
}

fn make_span(
    cs: &[char],
    from: usize,
    to: usize,
    style: TextStyle,
    kind: JsonSpanKind,
    key_context: Option<String>,
    span_id: Option<usize>,
) -> (sp: AnnotatedSpan)
    requires
        from <= to <= cs@.len(),
    ensures
        sp.spec_view() == span(
            cs@.subrange(from as int, to as int),
            style,
            kind,
            opt_view(key_context),
            match span_id {
                Some(i) => Some(i as nat),
                None => None,
            },
        ),
{
    AnnotatedSpan { content: string_from_range(cs, from, to), style, kind, key_context, span_id }
}

proof fn lemma_push_spans(v: Seq<AnnotatedSpan>, a: AnnotatedSpan)
    ensures
        spans_view(v.push(a)) == spans_view(v).push(a.spec_view()),
{
    assert(spans_view(v.push(a)) =~= spans_view(v).push(a.spec_view()));
}

/// Appends the spans of the unquoted text `cs[pos..hi]`.
fn process_non_quoted(
    cs: &[char],
    pos: usize,
    hi: usize,
    json_style: &JsonStyle,
    spans: &mut Vec<AnnotatedSpan>,
    state: &mut JsonParserState,
)
    requires
        pos <= hi <= cs@.len(),
        old(state).wf(),
        old(state).next_span_id + (hi - pos) < usize::MAX,
    ensures
        final(state).wf(),
        spans_view(final(spans)@) == spans_view(old(spans)@) + unquoted_spans(
            cs@,
            pos as int,
            hi as int,
            *json_style,
            old(state).spec_view(),
        ).0,
        final(state).spec_view() == unquoted_spans(cs@, pos as int, hi as int, *json_style, old(state).spec_view()).1,
{
    let ghost st0 = state.spec_view();
    let ghost sp0 = spans_view(spans@);
    let mut p = pos;
    while p < hi
        invariant
            pos <= p <= hi <= cs@.len(),
            state.wf(),
            state.next_span_id + (hi - p) < usize::MAX,
            sp0 + unquoted_spans(cs@, pos as int, hi as int, *json_style, st0).0 == spans_view(spans@)
                + unquoted_spans(cs@, p as int, hi as int, *json_style, state.spec_view()).0,
            unquoted_spans(cs@, pos as int, hi as int, *json_style, st0).1 == unquoted_spans(
                cs@,
                p as int,
                hi as int,
                *json_style,
                state.spec_view(),
            ).1,
        decreases hi - p,
    {
        let ghost stp = state.spec_view();
        let ghost spp = spans_view(spans@);
        let t = skip_ws_exec(cs, p, hi);
        if t > p {
            let sp = make_span(cs, p, t, crate::theme::plain(), JsonSpanKind::Whitespace, None, None);
            let ghost old_spans = spans@;
            spans.push(sp);
            proof {
                lemma_push_spans(old_spans, sp);
            }
        }
        if t >= hi {
            proof {
                let ws: Seq<SpanSpec> = if t > p {
                    seq![span(cs@.subrange(p as int, t as int), plain_style(), JsonSpanKind::Whitespace, None, None)]
                } else {
                    Seq::empty()
                };
                assert(unquoted_spans(cs@, p as int, hi as int, *json_style, stp).0 == ws);
                assert(spans_view(spans@) =~= spp + ws);
                assert(unquoted_spans(cs@, t as int, hi as int, *json_style, stp).0 =~= Seq::<SpanSpec>::empty());
                assert(spans_view(spans@) + unquoted_spans(cs@, t as int, hi as int, *json_style, stp).0 =~= spans_view(spans@));
            }
            p = t;
            assert(unquoted_spans(cs@, p as int, hi as int, *json_style, state.spec_view()).1 == stp);
        } else {
            let b = next_break_exec(cs, t, hi);
            let e = if b == t {
                t + 1
            } else {
                b
            };
            let ghost tok = cs@.subrange(t as int, e as int);
            let ghost step = token_step(tok, *json_style, stp);
            let ghost ws: Seq<SpanSpec> = if t > p {
                seq![span(cs@.subrange(p as int, t as int), plain_style(), JsonSpanKind::Whitespace, None, None)]
            } else {
                Seq::empty()
            };
            let ghost before_tok = spans@;
            let lit = is_literal_exec(cs, t, e);
            let num = if lit {
                false
            } else {
                is_number_exec(cs, t, e)
            };
            if lit || num {
                let key_context = state.current_key();
                let id = state.next_id();
                let color = if lit { json_style.boolean } else { json_style.number };
                let kind = if lit { JsonSpanKind::BooleanValue } else { JsonSpanKind::NumberValue };
                let sp = make_span(cs, t, e, crate::theme::fg(color), kind, key_context, Some(id));
                spans.push(sp);
                proof {
                    lemma_push_spans(before_tok, sp);
                    assert(sp.spec_view() == step.0);
                    assert(state.spec_view() == step.1);
                }
            } else {
                let c = cs[t];
                let single = e == t + 1;
                proof {
                    if single {
                        assert(tok =~= seq![c]);
                    }
                    if tok == seq!['{'] || tok == seq!['['] || tok == seq!['}'] || tok == seq![']'] {
                        assert(tok.len() == 1);
                        assert(tok[0] == c);
                    }
                }
                if single && (c == '{' || c == '[') {
                    state.push_object();
                } else if single && (c == '}' || c == ']') {
                    state.pop();
                }
                let sp = make_span(cs, t, e, crate::theme::plain(), JsonSpanKind::Punctuation, None, None);
                spans.push(sp);
                proof {
                    lemma_push_spans(before_tok, sp);
                    assert(sp.spec_view() == step.0);
                    assert(state.spec_view() == step.1);
                }
            }
            proof {
                lemma_next_break_bounds(cs@, t as int, hi as int);
                assert(unquoted_spans(cs@, p as int, hi as int, *json_style, stp).0 == ws + seq![step.0] + unquoted_spans(cs@, e as int, hi as int, *json_style, step.1).0);
                assert(spans_view(spans@) == spp + ws + seq![step.0]);
                assert(sp0 + unquoted_spans(cs@, pos as int, hi as int, *json_style, st0).0 =~= spans_view(spans@) + unquoted_spans(cs@, e as int, hi as int, *json_style, state.spec_view()).0);
            }
            p = e;
        }
    }
    proof {
        assert(unquoted_spans(cs@, p as int, hi as int, *json_style, state.spec_view()).0 =~= Seq::<SpanSpec>::empty());
        assert(spans_view(spans@) + Seq::<SpanSpec>::empty() =~= spans_view(spans@));
    }
}

/// Whether the character at `q` is escaped by the backslashes in `cs[lo..q]`.
fn escaped_between(cs: &[char], lo: usize, q: usize) -> (r: bool)
    requires
        lo <= q <= cs@.len(),
    ensures
        r == escaped_after(cs@, lo as int, q as int),
{
    let mut j = q;
    let mut count: usize = 0;
    while j > lo && cs[j - 1] == '\\'
        invariant
            lo <= j <= q <= cs@.len(),
            count == q - j,
            trailing_backslashes(cs@.subrange(lo as int, q as int)) == count + trailing_backslashes(
                cs@.subrange(lo as int, j as int),
            ),
        decreases j,
    {
        assert(cs@.subrange(lo as int, j as int).drop_last() == cs@.subrange(lo as int, j - 1));
        j -= 1;
        count += 1;
    }
    count % 2 == 1
}

/// The first unescaped double quote in `cs[lo..]`, backslashes counted from `lo`.
fn find_closing_quote(cs: &[char], lo: usize) -> (r: Option<usize>)
    requires
        lo <= cs@.len(),
    ensures
        match r {
            Some(q) => closing_quote(cs@, lo as int, lo as int) == Some(q as int),
            None => closing_quote(cs@, lo as int, lo as int) is None,
        },
{
    let mut search = lo;
    loop
        invariant
            lo <= search <= cs@.len(),
            closing_quote(cs@, lo as int, search as int) == closing_quote(cs@, lo as int, lo as int),
        decreases cs@.len() - search,
    {
        let q = find_char_from(cs, '"', search);
        assert(cs@.skip(search as int) == cs@.subrange(search as int, cs@.len() as int));
        if q >= cs.len() {
            return None;
        }
        if !escaped_between(cs, lo, q) {
            return Some(q);
        }
        search = q + 1;
    }
}

/// Whether, past whitespace from `from`, the line continues with a colon.
fn colon_follows_exec(cs: &[char], from: usize) -> (r: bool)
    requires
        from <= cs@.len(),
    ensures
        r == colon_follows(cs@, from as int),
{
    let j = skip_ws_exec(cs, from, cs.len());
    j < cs.len() && cs[j] == ':'
}

/// The spans of one line, continuing from the highlighter's state.
fn highlight_line(cs: &[char], json_style: &JsonStyle, state: &mut JsonParserState) -> (spans: Vec<AnnotatedSpan>)
    requires
        old(state).wf(),
        old(state).next_span_id + cs@.len() < usize::MAX,
    ensures
        final(state).wf(),
        spans_view(spans@) == line_spans(cs@, 0, *json_style, old(state).spec_view()).0,
        final(state).spec_view() == line_spans(cs@, 0, *json_style, old(state).spec_view()).1,
        final(state).next_span_id <= old(state).next_span_id + cs@.len(),
{
    let ghost st0 = state.spec_view();
    let ghost style = *json_style;
    let n = cs.len();
    let mut spans: Vec<AnnotatedSpan> = Vec::new();
    let mut pos: usize = 0;
    assert(spans_view(spans@) =~= Seq::<SpanSpec>::empty());
    while pos < n
        invariant
            n == cs@.len(),
            style == *json_style,
            pos <= n,
            state.wf(),
            state.next_span_id + (n - pos) <= st0.next_id + n,
            st0.next_id + n < usize::MAX,
            spans_view(spans@) + line_spans(cs@, pos as int, style, state.spec_view()).0 == line_spans(
                cs@,
                0,
                style,
                st0,
            ).0,
            line_spans(cs@, pos as int, style, state.spec_view()).1 == line_spans(cs@, 0, style, st0).1,
        decreases n - pos,
    {
        let ghost stp = state.spec_view();
        let ghost spp = spans_view(spans@);
        let q = find_char_from(cs, '"', pos);
        proof {
            assert(cs@.skip(pos as int) == cs@.subrange(pos as int, n as int));
            lemma_first_index(cs@.subrange(pos as int, n as int), '"');
        }
        if q >= n {
            process_non_quoted(cs, pos, n, json_style, &mut spans, state);
            proof {
                lemma_unquoted_ids(cs@, pos as int, n as int, style, stp);
                assert(line_spans(cs@, n as int, style, state.spec_view()).0 =~= Seq::<SpanSpec>::empty());
                assert(spans_view(spans@) + Seq::<SpanSpec>::empty() =~= spans_view(spans@));
            }
            pos = n;
        } else if escaped_between(cs, pos, q) {
            let key_context = state.current_key();
            let id = state.next_id();
            let sp = make_span(cs, pos, q + 1, crate::theme::plain(), JsonSpanKind::StringValue, key_context, Some(id));
            let ghost before = spans@;
            spans.push(sp);
            proof {
                lemma_push_spans(before, sp);
                let rest = line_spans(cs@, q + 1, style, bumped(stp));
                assert(line_spans(cs@, pos as int, style, stp).0 == seq![sp.spec_view()] + rest.0);
                assert(spp + line_spans(cs@, pos as int, style, stp).0 =~= spans_view(spans@) + rest.0);
            }
            pos = q + 1;
        } else {
            process_non_quoted(cs, pos, q, json_style, &mut spans, state);
            let ghost st1 = state.spec_view();
            let ghost pre = unquoted_spans(cs@, pos as int, q as int, style, stp).0;
            proof {
                lemma_unquoted_ids(cs@, pos as int, q as int, style, stp);
                lemma_closing_quote_after(cs@, q + 1, q + 1);
            }
            let closing = find_closing_quote(cs, q + 1);
            match closing {
                Some(ep) => {
                    let quoted = string_from_range(cs, q + 1, ep);
                    let mut text = String::new();
                    push_char(&mut text, '"');
                    crate::text::append_str(&mut text, quoted.as_str());
                    push_char(&mut text, '"');
                    let ghost tq = quoted@;
                    let is_key = colon_follows_exec(cs, ep + 1);
                    let ghost before = spans@;
                    if is_key {
                        state.update_key(quoted);
                        let key_context = state.current_key();
                        let sp = AnnotatedSpan {
                            content: text,
                            style: TextStyle { fg: Some(json_style.key), bg: None, bold: true },
                            kind: JsonSpanKind::Key,
                            key_context,
                            span_id: None,
                        };
                        spans.push(sp);
                        proof {
                            lemma_push_spans(before, sp);
                            let st2 = with_key(st1, tq);
                            let rest = line_spans(cs@, ep + 1, style, st2);
                            assert(text@ == seq!['"'] + tq + seq!['"']);
                            assert(tq == cs@.subrange(q + 1, ep as int));
                            assert(colon_follows(cs@, ep + 1));
                            assert(state.spec_view() == st2);
                            assert(sp.spec_view() == span(seq!['"'] + tq + seq!['"'], TextStyle { fg: Some(style.key), bg: None, bold: true }, JsonSpanKind::Key, context_of(st2.stack), None));
                            assert(line_spans(cs@, pos as int, style, stp).0 == pre + seq![sp.spec_view()] + rest.0);
                            assert(spp + line_spans(cs@, pos as int, style, stp).0 =~= spans_view(spans@) + rest.0);
                        }
                    } else {
                        let key_context = state.current_key();
                        let id = state.next_id();
                        let sp = AnnotatedSpan {
                            content: text,
                            style: crate::theme::fg(json_style.string),
                            kind: JsonSpanKind::StringValue,
                            key_context,
                            span_id: Some(id),
                        };
                        spans.push(sp);
                        proof {
                            lemma_push_spans(before, sp);
                            let rest = line_spans(cs@, ep + 1, style, bumped(st1));
                            assert(text@ == seq!['"'] + tq + seq!['"']);
                            assert(tq == cs@.subrange(q + 1, ep as int));
                            assert(!colon_follows(cs@, ep + 1));
                            assert(line_spans(cs@, pos as int, style, stp).0 == pre + seq![sp.spec_view()] + rest.0);
                            assert(spp + line_spans(cs@, pos as int, style, stp).0 =~= spans_view(spans@) + rest.0);
                        }
                    }
                    pos = ep + 1;
                },
                None => {
                    let key_context = state.current_key();
                    let id = state.next_id();
                    let sp = make_span(cs, pos, n, crate::theme::fg(json_style.string), JsonSpanKind::StringValue, key_context, Some(id));
                    let ghost before = spans@;
                    spans.push(sp);
                    proof {
                        lemma_push_spans(before, sp);
                        assert(line_spans(cs@, pos as int, style, stp).0 == pre + seq![sp.spec_view()]);
                        assert(line_spans(cs@, n as int, style, state.spec_view()).0 =~= Seq::<SpanSpec>::empty());
                        assert(spp + line_spans(cs@, pos as int, style, stp).0 =~= spans_view(spans@) + Seq::<SpanSpec>::empty());
                    }
                    pos = n;
                },
            }
        }
    }
    proof {
        assert(line_spans(cs@, pos as int, style, state.spec_view()).0 =~= Seq::<SpanSpec>::empty());
        assert(spans_view(spans@) + Seq::<SpanSpec>::empty() =~= spans_view(spans@));
    }
    spans
}

proof fn lemma_push_lines(v: Seq<Vec<AnnotatedSpan>>, a: Vec<AnnotatedSpan>)
    ensures
        lines_view(v.push(a)) == lines_view(v).push(spans_view(a@)),
{
    assert(lines_view(v.push(a)) =~= lines_view(v).push(spans_view(a@)));
}

/// Highlights pretty-printed JSON: one vector of spans per line of `json`
/// (as `str::lines` splits it), with keys, strings, numbers, literals,
/// punctuation and whitespace told apart. Value spans carry the dotted path
/// of their key and an identifier counted from 1 across the whole text.
#[verifier::spinoff_prover]
#[verifier::rlimit(40)]
pub fn highlight_json_annotated(json: &str, json_style: &JsonStyle) -> (lines: Vec<Vec<AnnotatedSpan>>)
    requires
        json@.len() + 1 < usize::MAX,
    ensures
        lines_view(lines@) == highlighted(json@, *json_style),
{
    let ghost style = *json_style;
    let cs = chars_of(json);
    let n = cs.len();
    let mut state = JsonParserState::new();
    let mut lines: Vec<Vec<AnnotatedSpan>> = Vec::new();
    let mut pos: usize = 0;
    assert(cs@.subrange(0, n as int) == json@);
    assert(lines_view(lines@) =~= Seq::<Seq<SpanSpec>>::empty());
    while pos < n
        invariant
            n == cs@.len(),
            cs@ == json@,
            style == *json_style,
            n + 1 < usize::MAX,
            pos <= n,
            state.wf(),
            state.next_span_id <= 1 + pos,
            lines_view(lines@) + document_spans(text_lines(cs@.subrange(pos as int, n as int)), style, state.spec_view())
                == highlighted(json@, style),
        decreases n - pos,
    {
        let ghost rest = cs@.subrange(pos as int, n as int);
        let ghost stp = state.spec_view();
        let ghost before = lines@;
        let k = find_char_from(cs.as_slice(), '\n', pos);
        proof {
            assert(cs@.skip(pos as int) == rest);
            lemma_first_index(rest, '\n');
        }
        let mut line = chars_range(cs.as_slice(), pos, k);
        if k < n && line.len() > 0 && line[line.len() - 1] == '\r' {
            line.pop();
        }
        let ghost l = line@;
        assert(rest.subrange(0, k - pos) == cs@.subrange(pos as int, k as int));
        assert(k < n ==> l == strip_cr(cs@.subrange(pos as int, k as int)));
        assert(k >= n ==> l == cs@.subrange(pos as int, k as int));
        let spans = highlight_line(line.as_slice(), json_style, &mut state);
        lines.push(spans);
        proof {
            lemma_push_lines(before, spans);
            let (ls, st2) = line_spans(l, 0, style, stp);
            if k < n {
                assert(rest.subrange(k - pos + 1, rest.len() as int) == cs@.subrange(k + 1, n as int));
                let tail = text_lines(cs@.subrange(k + 1, n as int));
                assert(text_lines(rest) == seq![l] + tail);
                assert((seq![l] + tail).drop_first() =~= tail);
                assert(document_spans(text_lines(rest), style, stp) == seq![ls] + document_spans(tail, style, st2));
            } else {
                assert(rest.subrange(0, k - pos) == rest);
                assert(text_lines(rest) == seq![l]);
                assert(seq![l].drop_first() =~= Seq::<Seq<char>>::empty());
                assert(cs@.subrange(n as int, n as int) =~= Seq::<char>::empty());
                assert(document_spans(text_lines(rest), style, stp) == seq![ls] + document_spans(Seq::<Seq<char>>::empty(), style, st2));
            }
        }
        if k < n {
            pos = k + 1;
        } else {
            pos = n;
        }
        assert(lines_view(lines@) + document_spans(text_lines(cs@.subrange(pos as int, n as int)), style, state.spec_view())
            =~= highlighted(json@, style));
    }
    proof {
        assert(cs@.subrange(pos as int, n as int) =~= Seq::<char>::empty());
        assert(lines_view(lines@) + Seq::<Seq<SpanSpec>>::empty() =~= lines_view(lines@));
    }
    lines
}

} // verus!
