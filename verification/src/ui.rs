//! Layout arithmetic of the filter input and the text shown in the panes.
use vstd::prelude::*;

use crate::width::{
    cell_width, cells, lemma_text_width_monotone, lemma_text_width_step, prefix, text_width,
};
use crate::text::{append_str, chars_of, str_eq};
use crate::json::JsonValue;
use crate::model::owned;
use crate::highlight::{
    AnnotatedSpan, SpanSpec, contents, lemma_contents_append, lemma_contents_single, lines_view, opt_view,
    spans_view,
};
use crate::text::string_from_range;
use crate::width::{str_width, unicode_str_width};
use crate::app_core::state::{AppState, strings_of};
use crate::app_core::layout::{min16, sat_sub};

verus! {

/// Terminal cell offset of the cursor placed before character `cursor` of `text`.
pub fn filter_cursor_offset(text: &str, cursor: usize) -> (r: u16)
    requires
        text_width(prefix(text@, cursor as int)) <= u16::MAX,
    ensures
        r == text_width(prefix(text@, cursor as int)),
{
    let cs = chars_of(text);
    let n = if cursor < cs.len() {
        cursor
    } else {
        cs.len()
    };
    assert(prefix(text@, cursor as int) == cs@.take(n as int));
    let mut total: u16 = 0;
    let mut i: usize = 0;
    while i < n
        invariant
            n <= cs@.len(),
            0 <= i <= n,
            total == text_width(cs@.take(i as int)),
            text_width(cs@.take(n as int)) <= u16::MAX,
        decreases n - i,
    {
        proof {
            lemma_text_width_step(cs@, i as int);
            lemma_text_width_monotone(cs@, i + 1, n as int);
        }
        total = total + cells(cs[i]) as u16;
        i += 1;
    }
    total
}

/// Horizontal scroll of the filter input that keeps the cursor visible
/// in a field `visible_width` cells wide.
pub open spec fn viewport_offset(text: Seq<char>, cursor: int, visible_width: int) -> int {
    if visible_width == 0 {
        0
    } else {
        let off = text_width(prefix(text, cursor)) as int;
        let keep = if visible_width >= 1 { visible_width - 1 } else { 0 };
        if off > keep { off - keep } else { 0 }
    }
}

/// Calculates the horizontal viewport offset so the cursor stays visible in the input.
pub fn filter_viewport_offset(text: &str, cursor: usize, visible_width: u16) -> (r: u16)
    requires
        visible_width == 0 || text_width(prefix(text@, cursor as int)) <= u16::MAX,
    ensures
        r == viewport_offset(text@, cursor as int, visible_width as int),
{
    if visible_width == 0 {
        return 0;
    }
    let cursor_offset = filter_cursor_offset(text, cursor);
    cursor_offset.saturating_sub(visible_width.saturating_sub(1))
}

/// Horizontal scroll of the filter input (see [`filter_viewport_offset`]).
pub fn filter_horizontal_scroll(text: &str, cursor: usize, visible_width: u16) -> (r: u16)
    requires
        visible_width == 0 || text_width(prefix(text@, cursor as int)) <= u16::MAX,
    ensures
        r == viewport_offset(text@, cursor as int, visible_width as int),
{
    filter_viewport_offset(text, cursor, visible_width)
}

/// The first position from `j` before a character that would extend past
/// column `col`, or the end of the text.
pub open spec fn column_cursor_from(t: Seq<char>, col: int, j: int) -> int
    decreases t.len() - j,
{
    if j < 0 || j >= t.len() {
        t.len() as int
    } else if text_width(t.take(j + 1)) > col {
        j
    } else {
        column_cursor_from(t, col, j + 1)
    }
}

/// The cursor position for a click at column `col`: before the first
/// character that would extend past it, or at the end of the text.
pub open spec fn column_cursor(t: Seq<char>, col: int) -> int {
    column_cursor_from(t, col, 0)
}

/// `column_cursor_from` lies between its start and the end of the text.
pub proof fn lemma_column_cursor_bounds(t: Seq<char>, c: int)
    requires
        exists|col: int| c == column_cursor(t, col),
    ensures
        0 <= c <= t.len(),
{
    let col = choose|col: int| c == column_cursor(t, col);
    lemma_column_cursor_from_bounds(t, col, 0);
}

proof fn lemma_column_cursor_from_bounds(t: Seq<char>, col: int, j: int)
    requires
        0 <= j,
    ensures
        j <= column_cursor_from(t, col, j) <= t.len() || column_cursor_from(t, col, j) == t.len(),
        0 <= column_cursor_from(t, col, j) <= t.len(),
    decreases t.len() - j,
{
    if j < t.len() && !(text_width(t.take(j + 1)) > col) {
        lemma_column_cursor_from_bounds(t, col, j + 1);
    }
}

/// The width summed up to the character that passes column `col` fits in 16 bits.
pub open spec fn column_fits(t: Seq<char>, col: int) -> bool {
    column_cursor(t, col) < t.len() ==> text_width(t.take(column_cursor(t, col) + 1)) <= u16::MAX
}

/// The cursor position (in characters) for a click at cell column
/// `target_column` (see [`column_cursor`]).
pub fn filter_cursor_for_column(text: &str, target_column: u16) -> (r: usize)
    requires
        column_fits(text@, target_column as int),
    ensures
        r == column_cursor(text@, target_column as int),
        r <= text@.len(),
        forall|j: int| 0 <= j < r ==> text_width(#[trigger] text@.take(j + 1)) <= target_column,
        r < text@.len() ==> text_width(text@.take(r + 1)) > target_column,
{
    let cs = chars_of(text);
    let mut width: u16 = 0;
    let mut i: usize = 0;
    while i < cs.len()
        invariant
            0 <= i <= cs@.len(),
            cs@ == text@,
            width == text_width(cs@.take(i as int)),
            width <= target_column,
            forall|j: int| 0 <= j < i ==> text_width(#[trigger] cs@.take(j + 1)) <= target_column,
            column_cursor(cs@, target_column as int) == column_cursor_from(cs@, target_column as int, i as int),
            column_fits(cs@, target_column as int),
        decreases cs@.len() - i,
    {
        proof {
            lemma_text_width_step(cs@, i as int);
        }
        let char_width = cells(cs[i]) as u16;
        if width + char_width > target_column {
            return i;
        }
        width = width + char_width;
        i += 1;
    }
    i
}

/// Cell offset of the cursor in the filter, or `None` when it exceeds 16 bits.
pub fn filter_cursor_offset_checked(text: &str, cursor: usize) -> (r: Option<u16>)
    ensures
        match r {
            Some(w) => w == text_width(prefix(text@, cursor as int)),
            None => text_width(prefix(text@, cursor as int)) > u16::MAX,
        },
{
    let cs = chars_of(text);
    let n = if cursor < cs.len() {
        cursor
    } else {
        cs.len()
    };
    assert(prefix(text@, cursor as int) == cs@.take(n as int));
    let mut total: u32 = 0;
    let mut i: usize = 0;
    while i < n
        invariant
            n <= cs@.len(),
            0 <= i <= n,
            total == text_width(cs@.take(i as int)),
            total <= u16::MAX,
            prefix(text@, cursor as int) == cs@.take(n as int),
        decreases n - i,
    {
        proof {
            lemma_text_width_step(cs@, i as int);
            lemma_text_width_monotone(cs@, i + 1, n as int);
        }
        total = total + cells(cs[i]) as u32;
        if total > 65535 {
            return None;
        }
        i += 1;
    }
    Some(total as u16)
}

/// Whether the widths summed while placing the cursor for a click at
/// column `col` fit in 16 bits.
pub fn column_fits_exec(text: &str, col: u16) -> (b: bool)
    ensures
        b == column_fits(text@, col as int),
{
    let cs = chars_of(text);
    let mut width: u32 = 0;
    let mut i: usize = 0;
    while i < cs.len()
        invariant
            0 <= i <= cs@.len(),
            cs@ == text@,
            width == text_width(cs@.take(i as int)),
            width <= col,
            column_cursor(cs@, col as int) == column_cursor_from(cs@, col as int, i as int),
        decreases cs@.len() - i,
    {
        proof {
            lemma_text_width_step(cs@, i as int);
        }
        let w = cells(cs[i]) as u32;
        if width + w > col as u32 {
            return width + w <= 65535;
        }
        width = width + w;
        i += 1;
    }
    true
}

/// The text of the string member `key` of `json`, or "".
pub open spec fn str_or_empty(json: JsonValue, key: Seq<char>) -> Seq<char> {
    match json.spec_get_str(key) {
        Some(s) => s,
        None => Seq::empty(),
    }
}

/// The display text of a `name` value: a string, or the string member
/// `str`, or the string member `str_sp`.
pub open spec fn spec_name_value(v: JsonValue) -> Option<Seq<char>> {
    match v.spec_as_str() {
        Some(s) => Some(s),
        None => match v.spec_get_str("str"@) {
            Some(s) => Some(s),
            None => v.spec_get_str("str_sp"@),
        },
    }
}

/// A name for an item without id, from the members its type is known by:
/// the result (and suffix) of a recipe, the result of an uncraft, the trait
/// or item of a profession item substitution.
pub open spec fn spec_fallback_display_name(json: JsonValue, id: Seq<char>, type_: Seq<char>) -> Option<Seq<char>> {
    if id.len() > 0 {
        None
    } else if type_ == "recipe"@ {
        let result = str_or_empty(json, "result"@);
        let suffix = str_or_empty(json, "id_suffix"@);
        if result.len() == 0 {
            None
        } else if suffix.len() == 0 {
            Some("result: "@ + result)
        } else {
            Some("result: "@ + result + " (suffix: "@ + suffix + ")"@)
        }
    } else if type_ == "uncraft"@ {
        match json.spec_get_str("result"@) {
            Some(r) => if r.len() > 0 { Some("result: "@ + r) } else { None },
            None => None,
        }
    } else if type_ == "profession_item_substitutions"@ {
        match json.spec_get_str("trait"@) {
            Some(t) if t.len() > 0 => Some("trait: "@ + t),
            _ => match json.spec_get_str("item"@) {
                Some(i) if i.len() > 0 => Some("item: "@ + i),
                _ => None,
            },
        }
    } else {
        None
    }
}

/// The name an item is listed under: its id; else `(abs) ` and its
/// abstract; else its non-empty name; else the fallback name; else `(?)`.
pub open spec fn spec_display_name(json: JsonValue, id: Seq<char>, type_: Seq<char>) -> Seq<char> {
    if id.len() > 0 {
        id
    } else {
        match json.spec_get_str("abstract"@) {
            Some(a) => "(abs) "@ + a,
            None => {
                let name = match json.spec_get("name"@) {
                    Some(v) => spec_name_value(v),
                    None => None,
                };
                match name {
                    Some(n) if n.len() > 0 => n,
                    _ => match spec_fallback_display_name(json, id, type_) {
                        Some(f) => f,
                        None => "(?)"@,
                    },
                }
            },
        }
    }
}

/// The display text of a `name` value.
pub fn name_value(value: &JsonValue) -> (r: Option<String>)
    ensures
        r matches Some(s) ==> spec_name_value(*value) == Some(s@),
        r is None ==> spec_name_value(*value) is None,
{
    if let Some(s) = value.as_str() {
        return Some(owned(s));
    }
    if let Some(s) = value.get_str("str") {
        return Some(owned(s));
    }
    if let Some(s) = value.get_str("str_sp") {
        return Some(owned(s));
    }
    None
}

/// `prefix` followed by `s`.
fn concat(prefix: &str, s: &str) -> (out: String)
    ensures
        out@ == prefix@ + s@,
{
    let mut out = String::new();
    append_str(&mut out, prefix);
    append_str(&mut out, s);
    assert(out@ =~= prefix@ + s@);
    out
}

/// A name for an item without id (see [`spec_fallback_display_name`]).
pub fn fallback_display_name(json: &JsonValue, id: &str, type_: &str) -> (r: Option<String>)
    ensures
        r matches Some(s) ==> spec_fallback_display_name(*json, id@, type_@) == Some(s@),
        r is None ==> spec_fallback_display_name(*json, id@, type_@) is None,
{
    if !id.is_empty() {
        return None;
    }
    if str_eq(type_, "recipe") {
        let result = match json.get_str("result") {
            Some(r) => r,
            None => "",
        };
        proof {
            reveal_strlit("");
        }
        if result.is_empty() {
            return None;
        }
        let suffix = match json.get_str("id_suffix") {
            Some(x) => x,
            None => "",
        };
        if suffix.is_empty() {
            Some(concat("result: ", result))
        } else {
            let mut out = concat("result: ", result);
            append_str(&mut out, " (suffix: ");
            append_str(&mut out, suffix);
            append_str(&mut out, ")");
            Some(out)
        }
    } else if str_eq(type_, "uncraft") {
        if let Some(result) = json.get_str("result") {
            if !result.is_empty() {
                return Some(concat("result: ", result));
            }
        }
        None
    } else if str_eq(type_, "profession_item_substitutions") {
        if let Some(t) = json.get_str("trait") {
            if !t.is_empty() {
                return Some(concat("trait: ", t));
            }
        }
        if let Some(i) = json.get_str("item") {
            if !i.is_empty() {
                return Some(concat("item: ", i));
            }
        }
        None
    } else {
        None
    }
}

/// The name an item is listed under (see [`spec_display_name`]).
pub fn display_name_for_item(json: &JsonValue, id: &str, type_: &str) -> (r: String)
    ensures
        r@ == spec_display_name(*json, id@, type_@),
{
    if !id.is_empty() {
        return owned(id);
    }
    if let Some(a) = json.get_str("abstract") {
        return concat("(abs) ", a);
    }
    let name = match json.get("name") {
        Some(v) => name_value(v),
        None => None,
    };
    if let Some(n) = name {
        if !n.as_str().is_empty() {
            return n;
        }
    }
    if let Some(f) = fallback_display_name(json, id, type_) {
        return f;
    }
    owned("(?)")
}

/// How many leading characters of `s` fit in `room` cells, and their width.
pub open spec fn fit(s: Seq<char>, room: int) -> (nat, nat)
    decreases s.len(),
{
    if s.len() == 0 || cell_width(s[0]) > room {
        (0, 0)
    } else {
        let r = fit(s.drop_first(), room - cell_width(s[0]));
        (r.0 + 1, r.1 + cell_width(s[0]))
    }
}

/// `sp` with its text replaced by `t`.
pub open spec fn piece(sp: SpanSpec, t: Seq<char>) -> SpanSpec {
    SpanSpec { content: t, style: sp.style, kind: sp.kind, key_context: sp.key_context, span_id: sp.span_id }
}

/// Wrapping the rest of a line: `rest` is what is left of span `i`, `cur`
/// the wrapped line being filled and `used` its width. A span part that
/// fits is added; when none fits the line is closed, or, on an empty line,
/// a single character is placed alone.
pub open spec fn wrap_from(spans: Seq<SpanSpec>, i: int, rest: Seq<char>, width: nat, cur: Seq<SpanSpec>, used: nat) -> Seq<Seq<SpanSpec>>
    decreases spans.len() - i, 2 * rest.len() + (if cur.len() > 0 || used > 0 { 1int } else { 0int }),
{
    if width == 0 || i < 0 || i >= spans.len() {
        Seq::empty()
    } else if rest.len() == 0 {
        if i + 1 < spans.len() {
            wrap_from(spans, i + 1, spans[i + 1].content, width, cur, used)
        } else if cur.len() > 0 {
            seq![cur]
        } else {
            Seq::empty()
        }
    } else if used >= width {
        seq![cur] + wrap_from(spans, i, rest, width, Seq::empty(), 0)
    } else {
        let (k, w) = fit(rest, width - used);
        if k > 0 {
            if k <= rest.len() {
                wrap_from(spans, i, rest.skip(k as int), width, cur.push(piece(spans[i], rest.take(k as int))), used + w)
            } else {
                Seq::empty()
            }
        } else if cur.len() > 0 {
            seq![cur] + wrap_from(spans, i, rest, width, Seq::empty(), 0)
        } else {
            seq![seq![piece(spans[i], rest.take(1))]] + wrap_from(spans, i, rest.skip(1), width, Seq::empty(), 0)
        }
    }
}

/// The wrapped lines of one line: an empty line stays one empty line.
pub open spec fn wrap_line(spans: Seq<SpanSpec>, width: nat) -> Seq<Seq<SpanSpec>> {
    if spans.len() == 0 {
        seq![Seq::empty()]
    } else {
        wrap_from(spans, 0, spans[0].content, width, Seq::empty(), 0)
    }
}

/// The wrapped lines of a document, line after line.
pub open spec fn wrap_all(lines: Seq<Seq<SpanSpec>>, width: nat) -> Seq<Seq<SpanSpec>>
    decreases lines.len(),
{
    if lines.len() == 0 {
        Seq::empty()
    } else {
        wrap_all(lines.drop_last(), width) + wrap_line(lines.last(), width)
    }
}

/// `fit` never takes more characters than there are, nor more room than given.
pub proof fn lemma_fit_bounds(s: Seq<char>, room: int)
    ensures
        fit(s, room).0 <= s.len(),
        room >= 0 ==> fit(s, room).1 <= room,
        fit(s, room).0 == 0 ==> fit(s, room).1 == 0,
    decreases s.len(),
{
    if s.len() > 0 && cell_width(s[0]) <= room {
        lemma_fit_bounds(s.drop_first(), room - cell_width(s[0]));
    }
}

/// The texts of all spans of all lines, joined.
pub open spec fn flat_contents(lines: Seq<Seq<SpanSpec>>) -> Seq<char>
    decreases lines.len(),
{
    if lines.len() == 0 {
        Seq::empty()
    } else {
        flat_contents(lines.drop_last()) + contents(lines.last())
    }
}

/// Joining the lines' texts distributes over concatenation.
pub proof fn lemma_flat_append(a: Seq<Seq<SpanSpec>>, b: Seq<Seq<SpanSpec>>)
    ensures
        flat_contents(a + b) == flat_contents(a) + flat_contents(b),
    decreases b.len(),
{
    if b.len() == 0 {
        assert(a + b =~= a);
        assert(flat_contents(a) + flat_contents(b) =~= flat_contents(a));
    } else {
        lemma_flat_append(a, b.drop_last());
        assert((a + b).drop_last() =~= a + b.drop_last());
        assert((a + b).last() == b.last());
        assert(flat_contents(a + b) =~= flat_contents(a) + flat_contents(b));
    }
}

/// One line, joined, is its own text.
pub proof fn lemma_flat_single(l: Seq<SpanSpec>)
    ensures
        flat_contents(seq![l]) == contents(l),
{
    assert(seq![l].drop_last() =~= Seq::<Seq<SpanSpec>>::empty());
    assert(flat_contents(Seq::<Seq<SpanSpec>>::empty()) + contents(l) =~= contents(l));
}

proof fn lemma_contents_front(s: Seq<SpanSpec>)
    requires
        s.len() > 0,
    ensures
        contents(s) == s[0].content + contents(s.skip(1)),
{
    assert(s =~= seq![s[0]] + s.skip(1));
    lemma_contents_append(seq![s[0]], s.skip(1));
    lemma_contents_single(s[0]);
}

/// Wrapping the rest of a line keeps its text: the line being filled, the
/// rest of the span and the later spans.
pub proof fn lemma_wrap_from_contents(spans: Seq<SpanSpec>, i: int, rest: Seq<char>, width: nat, cur: Seq<SpanSpec>, used: nat)
    requires
        width > 0,
        0 <= i < spans.len(),
    ensures
        flat_contents(wrap_from(spans, i, rest, width, cur, used)) == contents(cur) + rest + contents(spans.skip(i + 1)),
    decreases spans.len() - i, 2 * rest.len() + (if cur.len() > 0 || used > 0 { 1int } else { 0int }),
{
    let tail = contents(spans.skip(i + 1));
    let empty_cur = Seq::<SpanSpec>::empty();
    assert(contents(empty_cur) =~= Seq::<char>::empty());
    if rest.len() == 0 {
        if i + 1 < spans.len() {
            lemma_wrap_from_contents(spans, i + 1, spans[i + 1].content, width, cur, used);
            lemma_contents_front(spans.skip(i + 1));
            assert(spans.skip(i + 1).skip(1) =~= spans.skip(i + 2));
            assert(spans.skip(i + 1)[0] == spans[i + 1]);
            assert(contents(cur) + rest + tail =~= contents(cur) + spans[i + 1].content + contents(spans.skip(i + 2)));
        } else {
            assert(spans.skip(i + 1) =~= Seq::<SpanSpec>::empty());
            if cur.len() > 0 {
                lemma_flat_single(cur);
            }
            assert(contents(cur) + rest + tail =~= contents(cur));
        }
    } else if used >= width {
        lemma_wrap_from_contents(spans, i, rest, width, empty_cur, 0);
        lemma_flat_append(seq![cur], wrap_from(spans, i, rest, width, empty_cur, 0));
        lemma_flat_single(cur);
        assert(contents(cur) + (contents(empty_cur) + rest + tail) =~= contents(cur) + rest + tail);
    } else {
        let (k, w) = fit(rest, width - used);
        lemma_fit_bounds(rest, width - used);
        if k > 0 {
            let p = piece(spans[i], rest.take(k as int));
            lemma_wrap_from_contents(spans, i, rest.skip(k as int), width, cur.push(p), used + w);
            lemma_contents_append(cur, seq![p]);
            assert(cur + seq![p] =~= cur.push(p));
            lemma_contents_single(p);
            assert(contents(cur.push(p)) + rest.skip(k as int) + tail =~= contents(cur) + rest + tail);
        } else if cur.len() > 0 {
            lemma_wrap_from_contents(spans, i, rest, width, empty_cur, 0);
            lemma_flat_append(seq![cur], wrap_from(spans, i, rest, width, empty_cur, 0));
            lemma_flat_single(cur);
            assert(contents(cur) + (contents(empty_cur) + rest + tail) =~= contents(cur) + rest + tail);
        } else {
            let p = piece(spans[i], rest.take(1));
            lemma_wrap_from_contents(spans, i, rest.skip(1), width, empty_cur, 0);
            lemma_flat_append(seq![seq![p]], wrap_from(spans, i, rest.skip(1), width, empty_cur, 0));
            lemma_flat_single(seq![p]);
            lemma_contents_single(p);
            assert(contents(cur) =~= Seq::<char>::empty());
            assert(rest.take(1) + (contents(empty_cur) + rest.skip(1) + tail) =~= contents(cur) + rest + tail);
        }
    }
}

/// Wrapping keeps the text of every line.
pub proof fn lemma_wrap_all_contents(lines: Seq<Seq<SpanSpec>>, width: nat)
    requires
        width > 0,
    ensures
        flat_contents(wrap_all(lines, width)) == flat_contents(lines),
    decreases lines.len(),
{
    if lines.len() > 0 {
        lemma_wrap_all_contents(lines.drop_last(), width);
        let l = lines.last();
        lemma_flat_append(wrap_all(lines.drop_last(), width), wrap_line(l, width));
        if l.len() == 0 {
            lemma_flat_single(Seq::<SpanSpec>::empty());
            assert(contents(l) =~= Seq::<char>::empty());
            assert(contents(Seq::<SpanSpec>::empty()) =~= Seq::<char>::empty());
        } else {
            lemma_wrap_from_contents(l, 0, l[0].content, width, Seq::empty(), 0);
            lemma_contents_front(l);
            assert(contents(Seq::<SpanSpec>::empty()) =~= Seq::<char>::empty());
            assert(contents(Seq::<SpanSpec>::empty()) + l[0].content + contents(l.skip(1)) =~= contents(l));
        }
    }
}

fn clone_opt_string(o: &Option<String>) -> (r: Option<String>)
    ensures
        opt_view(r) == opt_view(*o),
{
    match o {
        Some(s) => Some(s.clone()),
        None => None,
    }
}

/// A copy of `sp` holding the characters `cs[from..to]`.
fn piece_of(sp: &AnnotatedSpan, cs: &[char], from: usize, to: usize) -> (r: AnnotatedSpan)
    requires
        from <= to <= cs@.len(),
    ensures
        r.spec_view() == piece(sp.spec_view(), cs@.subrange(from as int, to as int)),
{
    AnnotatedSpan {
        content: string_from_range(cs, from, to),
        style: sp.style,
        kind: sp.kind,
        key_context: clone_opt_string(&sp.key_context),
        span_id: sp.span_id,
    }
}

/// How many characters of `cs[from..]` fit in `room` cells, and their width.
fn fit_exec(cs: &[char], from: usize, room: usize) -> (r: (usize, usize))
    requires
        from <= cs@.len(),
    ensures
        r.0 == fit(cs@.skip(from as int), room as int).0,
        r.1 == fit(cs@.skip(from as int), room as int).1,
{
    let mut j = from;
    let mut used: usize = 0;
    while j < cs.len()
        invariant
            from <= j <= cs@.len(),
            used <= room,
            fit(cs@.skip(from as int), room as int).0 == (j - from) + fit(cs@.skip(j as int), room - used).0,
            fit(cs@.skip(from as int), room as int).1 == used + fit(cs@.skip(j as int), room - used).1,
        decreases cs@.len() - j,
    {
        let w = cells(cs[j]) as usize;
        assert(cs@.skip(j as int)[0] == cs@[j as int]);
        assert(cs@.skip(j as int).drop_first() == cs@.skip(j + 1));
        if w > room - used {
            return (j - from, used);
        }
        used = used + w;
        j += 1;
    }
    assert(cs@.skip(j as int).len() == 0);
    (j - from, used)
}

proof fn lemma_push_line(v: Seq<Vec<AnnotatedSpan>>, a: Vec<AnnotatedSpan>)
    ensures
        lines_view(v.push(a)) == lines_view(v).push(spans_view(a@)),
{
    assert(lines_view(v.push(a)) =~= lines_view(v).push(spans_view(a@)));
}

proof fn lemma_push_span(v: Seq<AnnotatedSpan>, a: AnnotatedSpan)
    ensures
        spans_view(v.push(a)) == spans_view(v).push(a.spec_view()),
{
    assert(spans_view(v.push(a)) =~= spans_view(v).push(a.spec_view()));
}

/// Appends the wrapped lines of `line` to `out`.
fn wrap_one_line(line: &Vec<AnnotatedSpan>, width: usize, out: &mut Vec<Vec<AnnotatedSpan>>)
    requires
        width > 0,
    ensures
        lines_view(final(out)@) == lines_view(old(out)@) + wrap_line(spans_view(line@), width as nat),
{
    let ghost sv = spans_view(line@);
    let ghost out0 = lines_view(out@);
    if line.len() == 0 {
        let ghost before = out@;
        let empty: Vec<AnnotatedSpan> = Vec::new();
        out.push(empty);
        proof {
            lemma_push_line(before, empty);
            assert(spans_view(empty@) =~= Seq::<SpanSpec>::empty());
            assert(lines_view(out@) =~= out0 + seq![Seq::<SpanSpec>::empty()]);
        }
        return;
    }
    let mut i: usize = 0;
    let mut content = chars_of(line[0].content.as_str());
    let mut pos: usize = 0;
    let mut cur: Vec<AnnotatedSpan> = Vec::new();
    let mut used: usize = 0;
    assert(content@.skip(0) == content@);
    assert(spans_view(cur@) =~= Seq::<SpanSpec>::empty());
    while !(pos == content.len() && i == line.len() - 1)
        invariant
            width > 0,
            sv == spans_view(line@),
            0 <= i < line@.len(),
            content@ == sv[i as int].content,
            pos <= content@.len(),
            used <= width,
            lines_view(out@) + wrap_from(sv, i as int, content@.skip(pos as int), width as nat, spans_view(cur@), used as nat)
                == out0 + wrap_line(sv, width as nat),
        decreases line@.len() - i, 2 * (content@.len() - pos) + (if cur@.len() > 0 || used > 0 { 1int } else { 0int }),
    {
        let ghost rest = content@.skip(pos as int);
        let ghost cv = spans_view(cur@);
        let ghost before = out@;
        if pos == content.len() {
            assert(rest.len() == 0);
            i += 1;
            content = chars_of(line[i].content.as_str());
            pos = 0;
            assert(content@.skip(0) == content@);
        } else if used >= width {
            out.push(cur);
            proof {
                lemma_push_line(before, cur);
                assert(lines_view(out@) + wrap_from(sv, i as int, rest, width as nat, Seq::empty(), 0)
                    =~= lines_view(before) + (seq![cv] + wrap_from(sv, i as int, rest, width as nat, Seq::empty(), 0)));
            }
            cur = Vec::new();
            used = 0;
            assert(spans_view(cur@) =~= Seq::<SpanSpec>::empty());
        } else {
            let (k, w) = fit_exec(content.as_slice(), pos, width - used);
            proof {
                lemma_fit_bounds(rest, (width - used) as int);
            }
            if k > 0 {
                let p = piece_of(&line[i], content.as_slice(), pos, pos + k);
                let ghost cur_before = cur@;
                cur.push(p);
                proof {
                    lemma_push_span(cur_before, p);
                    assert(content@.subrange(pos as int, pos + k) == rest.take(k as int));
                    assert(content@.skip(pos + k) == rest.skip(k as int));
                    assert(sv[i as int] == line@[i as int].spec_view());
                }
                used = used + w;
                pos = pos + k;
            } else if cur.len() > 0 {
                out.push(cur);
                proof {
                    lemma_push_line(before, cur);
                    assert(lines_view(out@) + wrap_from(sv, i as int, rest, width as nat, Seq::empty(), 0)
                        =~= lines_view(before) + (seq![cv] + wrap_from(sv, i as int, rest, width as nat, Seq::empty(), 0)));
                }
                cur = Vec::new();
                used = 0;
                assert(spans_view(cur@) =~= Seq::<SpanSpec>::empty());
            } else {
                let p = piece_of(&line[i], content.as_slice(), pos, pos + 1);
                let mut single: Vec<AnnotatedSpan> = Vec::new();
                single.push(p);
                out.push(single);
                proof {
                    lemma_push_line(before, single);
                    assert(spans_view(single@) =~= seq![p.spec_view()]);
                    assert(content@.subrange(pos as int, pos + 1) == rest.take(1));
                    assert(content@.skip(pos + 1) == rest.skip(1));
                    assert(sv[i as int] == line@[i as int].spec_view());
                    assert(lines_view(out@) + wrap_from(sv, i as int, rest.skip(1), width as nat, Seq::empty(), 0)
                        =~= lines_view(before) + (seq![seq![p.spec_view()]] + wrap_from(sv, i as int, rest.skip(1), width as nat, Seq::empty(), 0)));
                }
                cur = Vec::new();
                used = 0;
                pos = pos + 1;
                assert(spans_view(cur@) =~= Seq::<SpanSpec>::empty());
            }
        }
    }
    let ghost before = out@;
    let ghost cv = spans_view(cur@);
    assert(content@.skip(pos as int).len() == 0);
    if cur.len() > 0 {
        out.push(cur);
        proof {
            lemma_push_line(before, cur);
            assert(lines_view(out@) =~= lines_view(before) + seq![cv]);
        }
    } else {
        assert(lines_view(out@) =~= lines_view(before) + Seq::<Seq<SpanSpec>>::empty());
    }
}

/// Wraps highlighted lines to `width` cells, character by character, each
/// part keeping the role, key path and identifier of its span. A zero width
/// gives no lines.
pub fn wrap_annotated_lines(lines: &Vec<Vec<AnnotatedSpan>>, width: u16) -> (wrapped: Vec<Vec<AnnotatedSpan>>)
    ensures
        lines_view(wrapped@) == (if width == 0 {
            Seq::empty()
        } else {
            wrap_all(lines_view(lines@), width as nat)
        }),
{
    let mut wrapped: Vec<Vec<AnnotatedSpan>> = Vec::new();
    let width = width as usize;
    if width == 0 {
        assert(lines_view(wrapped@) =~= Seq::<Seq<SpanSpec>>::empty());
        return wrapped;
    }
    let ghost lv = lines_view(lines@);
    let mut i: usize = 0;
    assert(lines_view(wrapped@) =~= Seq::<Seq<SpanSpec>>::empty());
    assert(lv.take(0) =~= Seq::<Seq<SpanSpec>>::empty());
    while i < lines.len()
        invariant
            width > 0,
            lv == lines_view(lines@),
            0 <= i <= lines@.len(),
            lines_view(wrapped@) == wrap_all(lv.take(i as int), width as nat),
        decreases lines@.len() - i,
    {
        wrap_one_line(&lines[i], width, &mut wrapped);
        proof {
            assert(lv.take(i + 1).drop_last() =~= lv.take(i as int));
            assert(lv.take(i + 1).last() == lv[i as int]);
            assert(lv[i as int] == spans_view(lines@[i as int]@));
        }
        i += 1;
    }
    assert(lv.take(lines@.len() as int) =~= lv);
    wrapped
}

/// Cells a span occupies, as the pane measures it (cut to 16 bits).
pub open spec fn span_cells(sp: SpanSpec) -> int {
    (str_width(sp.content) as u16) as int
}

/// The span of `spans[k..]` (starting at column `x`) under column `col`.
pub open spec fn hit_from(spans: Seq<SpanSpec>, k: int, x: int, col: int) -> Option<int>
    decreases spans.len() - k,
{
    if k < 0 || k >= spans.len() {
        None
    } else if x <= col < x + span_cells(spans[k]) {
        Some(k)
    } else {
        hit_from(spans, k + 1, x + span_cells(spans[k]), col)
    }
}

/// A hit lies among the spans from `k` on.
pub proof fn lemma_hit_from_bounds(spans: Seq<SpanSpec>, k: int, x: int, col: int)
    ensures
        hit_from(spans, k, x, col) matches Some(j) ==> k <= j < spans.len() && 0 <= j,
    decreases spans.len() - k,
{
    if 0 <= k < spans.len() && !(x <= col < x + span_cells(spans[k])) {
        lemma_hit_from_bounds(spans, k + 1, x + span_cells(spans[k]), col);
    }
}

/// The span columns summed up to the hit stay within 16 bits.
pub open spec fn hit_widths_fit(spans: Seq<SpanSpec>, k: int, x: int, col: int) -> bool
    decreases spans.len() - k,
{
    if k < 0 || k >= spans.len() {
        true
    } else {
        &&& x + span_cells(spans[k]) <= u16::MAX
        &&& (x <= col < x + span_cells(spans[k]) || hit_widths_fit(spans, k + 1, x + span_cells(spans[k]), col))
    }
}

/// Where a click at `(column, row)` falls in the text of the details pane:
/// inside the pane's text region (without its one-cell gutters), on a
/// wrapped line (shifted by the scroll offset), relative to that line.
/// `None` outside; otherwise the line and the column within it.
pub open spec fn details_cell(app: &AppState, column: u16, row: u16) -> Option<(int, int)> {
    match app.details_content_area {
        None => None,
        Some(a) => {
            let xs = a.x + 1;
            let xe = a.x + a.width - 1;
            if column < xs || column >= xe || row < a.y || row >= a.y + a.height {
                None
            } else {
                Some(((row - a.y) + app.details_scroll_state.offset.y, column - xs))
            }
        },
    }
}

/// The arithmetic of locating a click in the details text stays within 16 bits.
pub open spec fn details_cell_fits(app: &AppState, column: u16, row: u16) -> bool {
    match app.details_content_area {
        None => true,
        Some(a) => {
            &&& a.x + 1 <= u16::MAX
            &&& 1 <= a.x + a.width <= u16::MAX
            &&& (column < a.x + 1 || column >= a.x + a.width - 1 || row < a.y || {
                &&& a.y + a.height <= u16::MAX
                &&& (row >= a.y + a.height || (row - a.y) + app.details_scroll_state.offset.y <= u16::MAX)
            })
        },
    }
}

/// The spans of the wrapped line `y` of the details.
pub open spec fn wrapped_line(app: &AppState, y: int) -> Seq<SpanSpec> {
    spans_view(app.details_wrapped_annotated@[y]@)
}

/// The wrapped line and span under a click, if any.
pub open spec fn details_hit(app: &AppState, column: u16, row: u16) -> Option<(int, int)> {
    match details_cell(app, column, row) {
        Some((y, x)) => if y < app.details_wrapped_annotated@.len() {
            match hit_from(wrapped_line(app, y), 0, 0, x) {
                Some(k) => Some((y, k)),
                None => None,
            }
        } else {
            None
        },
        None => None,
    }
}

/// The span widths summed while looking for the span under a click stay within 16 bits.
pub open spec fn details_hit_fits(app: &AppState, column: u16, row: u16) -> bool {
    match details_cell(app, column, row) {
        Some((y, x)) => y < app.details_wrapped_annotated@.len() ==> hit_widths_fit(wrapped_line(app, y), 0, 0, x),
        None => true,
    }
}

/// Cells the span occupies.
fn span_width(sp: &AnnotatedSpan) -> (w: u16)
    ensures
        w == span_cells(sp.spec_view()),
{
    unicode_str_width(sp.content.as_str()) as u16
}

/// The position of the click in the details text (see [`details_cell`]).
fn details_cell_exec(app: &AppState, column: u16, row: u16) -> (r: Option<(usize, u16)>)
    requires
        details_cell_fits(app, column, row),
    ensures
        match details_cell(app, column, row) {
            Some((y, x)) => r == Some((y as usize, x as u16)),
            None => r is None,
        },
{
    match app.details_content_area {
        None => None,
        Some(area) => {
            let xs = area.x + 1;
            let xe = area.x + area.width - 1;
            if column < xs || column >= xe || row < area.y || row >= area.y + area.height {
                None
            } else {
                let rel_x = column - xs;
                let rel_y = row - area.y;
                let y = rel_y + app.details_scroll_state.offset.y;
                Some((y as usize, rel_x))
            }
        },
    }
}

impl AppState {
    /// Wraps the details to `width` cells, unless they are already wrapped
    /// to that width.
    pub fn wrap_details(&mut self, width: u16)
        ensures
            final(self).details_wrapped_width == width,
            old(self).details_wrapped_width == width ==> *final(self) == *old(self),
            old(self).details_wrapped_width != width ==> lines_view(final(self).details_wrapped_annotated@) == (if width == 0 {
                Seq::empty()
            } else {
                wrap_all(lines_view(old(self).details_annotated@), width as nat)
            }),
            *final(self) == (AppState {
                details_wrapped_annotated: final(self).details_wrapped_annotated,
                details_wrapped_width: final(self).details_wrapped_width,
                ..*old(self)
            }),
            old(self).wf() ==> final(self).wf(),
    {
        if self.details_wrapped_width != width {
            self.details_wrapped_annotated = wrap_annotated_lines(&self.details_annotated, width);
            self.details_wrapped_width = width;
        }
    }
}

/// Whether placing a click in the details text keeps its sums within 16 bits
/// (see [`details_cell_fits`]).
pub fn details_cell_fits_exec(app: &AppState, column: u16, row: u16) -> (b: bool)
    ensures
        b == details_cell_fits(app, column, row),
{
    match app.details_content_area {
        None => true,
        Some(a) => {
            let x1 = a.x as u32 + 1;
            let xe = a.x as u32 + a.width as u32;
            if x1 > 65535 || xe < 1 || xe > 65535 {
                return false;
            }
            if (column as u32) < x1 || column as u32 >= xe - 1 || row < a.y {
                return true;
            }
            let ye = a.y as u32 + a.height as u32;
            if ye > 65535 {
                return false;
            }
            row as u32 >= ye || (row - a.y) as u32 + app.details_scroll_state.offset.y as u32 <= 65535
        },
    }
}

/// Whether looking up the span under a click keeps its sums within 16 bits.
pub fn hit_test_fits(app: &AppState, column: u16, row: u16) -> (b: bool)
    requires
        details_cell_fits(app, column, row),
    ensures
        b == details_hit_fits(app, column, row),
{
    match details_cell_exec(app, column, row) {
        None => true,
        Some((y, rel_x)) => {
            if y >= app.details_wrapped_annotated.len() {
                return true;
            }
            let line = &app.details_wrapped_annotated[y];
            let ghost sv = spans_view(line@);
            assert(sv == wrapped_line(app, y as int));
            let mut x: u32 = 0;
            let mut k: usize = 0;
            while k < line.len()
                invariant
                    0 <= k <= line@.len(),
                    sv == spans_view(line@),
                    y < app.details_wrapped_annotated@.len(),
                    details_cell(app, column, row) == Some((y as int, rel_x as int)),
                    sv == wrapped_line(app, y as int),
                    x <= u16::MAX,
                    hit_widths_fit(sv, 0, 0, rel_x as int) == hit_widths_fit(sv, k as int, x as int, rel_x as int),
                decreases line@.len() - k,
            {
                let w = span_width(&line[k]) as u32;
                assert(sv[k as int] == line@[k as int].spec_view());
                if x + w > 65535 {
                    return false;
                }
                if rel_x as u32 >= x && (rel_x as u32) < x + w {
                    return true;
                }
                x = x + w;
                k += 1;
            }
            true
        },
    }
}

/// The span under a click in the details pane, if any: the click must lie
/// in the pane's text region, away from its one-cell gutters; the row is
/// shifted by the scroll offset into the wrapped lines.
pub fn hit_test_details(app: &AppState, column: u16, row: u16) -> (r: Option<&AnnotatedSpan>)
    requires
        details_cell_fits(app, column, row),
        details_hit_fits(app, column, row),
    ensures
        match details_hit(app, column, row) {
            Some((y, k)) => r == Some(&app.details_wrapped_annotated@[y]@[k]),
            None => r is None,
        },
{
    match details_cell_exec(app, column, row) {
        None => None,
        Some((y, rel_x)) => {
            if y >= app.details_wrapped_annotated.len() {
                return None;
            }
            let line = &app.details_wrapped_annotated[y];
            let ghost sv = spans_view(line@);
            assert(sv == wrapped_line(app, y as int));
            let mut x: u16 = 0;
            let mut k: usize = 0;
            while k < line.len()
                invariant
                    0 <= k <= line@.len(),
                    sv == spans_view(line@),
                    y < app.details_wrapped_annotated@.len(),
                    details_cell(app, column, row) == Some((y as int, rel_x as int)),
                    sv == wrapped_line(app, y as int),
                    line == &app.details_wrapped_annotated@[y as int],
                    hit_from(sv, 0, 0, rel_x as int) == hit_from(sv, k as int, x as int, rel_x as int),
                    hit_widths_fit(sv, k as int, x as int, rel_x as int),
                decreases line@.len() - k,
            {
                let w = span_width(&line[k]);
                assert(sv[k as int] == line@[k as int].spec_view());
                if rel_x >= x && rel_x < x + w {
                    assert(details_hit(app, column, row) == Some((y as int, k as int)));
                    return Some(&line[k]);
                }
                x = x + w;
                k += 1;
            }
            None
        },
    }
}

/// The widest of the labels' display widths (0 when there are none).
pub open spec fn widest(labels: Seq<Seq<char>>) -> usize
    decreases labels.len(),
{
    if labels.len() == 0 {
        0
    } else {
        let w = widest(labels.drop_last());
        let l = str_width(labels.last());
        if w < l {
            l
        } else {
            w
        }
    }
}

/// The label column of the progress modal for content `content_width`
/// wide: as wide as the widest label (as a cell count), leaving 16 columns
/// for the gauge and the percentage, and absent when the content is at most
/// 10 wide.
pub open spec fn spec_label_column(content_width: u16, widest: usize) -> u16 {
    if content_width <= 10 {
        0
    } else {
        min16(widest as u16, sat_sub(content_width, 16))
    }
}

/// The width of the progress modal's label column and of the gap after it
/// (one cell when there is a label column).
pub fn progress_label_width(content_width: u16, labels: &Vec<String>) -> (r: (u16, u16))
    ensures
        r.0 == spec_label_column(content_width, widest(strings_of(labels@))),
        r.1 == (if r.0 > 0 { 1u16 } else { 0u16 }),
{
    let mut m: usize = 0;
    let mut i: usize = 0;
    while i < labels.len()
        invariant
            i <= labels@.len(),
            m == widest(strings_of(labels@).take(i as int)),
        decreases labels@.len() - i,
    {
        let l = unicode_str_width(labels[i].as_str());
        proof {
            let t = strings_of(labels@).take(i + 1);
            assert(t.drop_last() =~= strings_of(labels@).take(i as int));
            assert(t.last() == labels@[i as int]@);
        }
        if m < l {
            m = l;
        }
        i += 1;
    }
    assert(strings_of(labels@).take(labels@.len() as int) =~= strings_of(labels@));
    let widest_cells = m as u16;
    let w = if content_width <= 10 {
        0
    } else {
        let room = content_width.saturating_sub(16);
        if widest_cells < room { widest_cells } else { room }
    };
    (w, if w > 0 { 1 } else { 0 })
}

} // verus!
