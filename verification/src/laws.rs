//! Properties of the library as a whole, stated over the same models its
//! functions are specified with, and proved.
use vstd::prelude::*;

use crate::app_core::input::{AppKeyCode, AppKeyEvent, AppMouseEvent};
use crate::app_core::reducer::{KeyCtx, escape_char, escape_quotes, key_ui, mouse_ui, quoted_term};
use crate::app_core::state::{
    AppState, FocusPane, InputMode, UiView, next_pane, prev_pane, ui_end, ui_focus, ui_refilter,
};
use crate::highlight::{
    ParserSpec, SpanSpec, closing_quote, colon_follows, document_spans, escaped_after, initial_parser,
    lemma_closing_quote_after, lemma_next_break_bounds, lemma_skip_ws_bounds, line_spans, next_quote, skip_ws,
    token_end, token_step, unquoted_spans, contents, highlighted, lemma_contents_append, lemma_contents_single, lemma_document_contents,
    text_kept, text_lines,
};
use crate::matcher::{
    SplitState, TermSpec, lemma_matching, lemma_selects_in_range, query_terms, split_step, term_for_value, matching, parse_term_spec, query_selects, split_prefix, split_terms,
    term_selects, trailing_backslashes, unescape,
};
use crate::model::IndexedItem;
use crate::json::JsonValue;
use crate::matcher::{field_matches_at, normalized_pattern, split_on, value_matches};
use crate::ui::spec_display_name;
use crate::app_core::reducer::{after_link_click, click_value, id_text, json_string_literal, link_filter, trim};
use crate::highlight::{JsonSpanKind, context_of};
use crate::theme::TextStyle;
use crate::search_index::{SearchIndex, strictly_sorted, category_lowered_is, id_or_abstract, listed_under_infix, indexes, item_has_word, listed};
use crate::text::{
    ascii_lower, ascii_lower_char, ascii_upper, ascii_upper_char, char_is_whitespace, first_index, has_infix, is_ascii_text,
    lemma_first_index, lemma_first_index_unique, lowercase,
};
use crate::theme::JsonStyle;
use crate::ui::{
    column_cursor, column_cursor_from, fit, flat_contents, lemma_fit_bounds, lemma_flat_append, lemma_flat_single,
    lemma_wrap_all_contents, piece, wrap_all, wrap_from, wrap_line,
};
use crate::width::{cell_width, prefix, text_width};

verus! {

/// The shortcut classifiers select like the full names: `i:` and
/// `abstract:` like `id:`, `t:` like `type:`, `c:` like `category:`.
pub proof fn law_shortcut_classifiers(pattern: Seq<char>, exact: bool, items: Seq<IndexedItem>, ix: SearchIndex, x: usize)
    ensures
        term_selects(TermSpec { classifier: Some("i"@), pattern, exact }, items, ix, x)
            == term_selects(TermSpec { classifier: Some("id"@), pattern, exact }, items, ix, x),
        term_selects(TermSpec { classifier: Some("abstract"@), pattern, exact }, items, ix, x)
            == term_selects(TermSpec { classifier: Some("id"@), pattern, exact }, items, ix, x),
        term_selects(TermSpec { classifier: Some("t"@), pattern, exact }, items, ix, x)
            == term_selects(TermSpec { classifier: Some("type"@), pattern, exact }, items, ix, x),
        term_selects(TermSpec { classifier: Some("c"@), pattern, exact }, items, ix, x)
            == term_selects(TermSpec { classifier: Some("category"@), pattern, exact }, items, ix, x),
{
    reveal_strlit("i");
    reveal_strlit("id");
    reveal_strlit("abstract");
    reveal_strlit("t");
    reveal_strlit("type");
    reveal_strlit("c");
    reveal_strlit("category");
    assert("t"@ != "i"@) by {
        assert("t"@[0] != "i"@[0]);
    }
    assert("c"@ != "i"@) by {
        assert("c"@[0] != "i"@[0]);
    }
    assert("c"@ != "t"@) by {
        assert("c"@[0] != "t"@[0]);
    }
    assert("t"@ != "id"@) by {
        assert("t"@.len() != "id"@.len());
    }
    assert("t"@ != "abstract"@) by {
        assert("t"@.len() != "abstract"@.len());
    }
    assert("c"@ != "id"@) by {
        assert("c"@.len() != "id"@.len());
    }
    assert("c"@ != "abstract"@) by {
        assert("c"@.len() != "abstract"@.len());
    }
    assert("category"@ != "id"@) by {
        assert("category"@.len() != "id"@.len());
    }
    assert("category"@ != "abstract"@) by {
        assert("category"@[0] != "abstract"@[0]);
    }
    assert("category"@ != "i"@) by {
        assert("category"@.len() != "i"@.len());
    }
    assert("category"@ != "type"@) by {
        assert("category"@.len() != "type"@.len());
    }
    assert("category"@ != "t"@) by {
        assert("category"@.len() != "t"@.len());
    }
    assert("c"@ != "type"@) by {
        assert("c"@.len() != "type"@.len());
    }
}

/// Search ignores case: two patterns with the same lowercase form select the
/// same items, in every term but an exact match on a field path or on any
/// value, which compares the text as written.
pub proof fn law_search_ignores_case(
    classifier: Option<Seq<char>>,
    p1: Seq<char>,
    p2: Seq<char>,
    exact: bool,
    items: Seq<IndexedItem>,
    ix: SearchIndex,
    x: usize,
)
    requires
        lowercase(p1) == lowercase(p2),
        exact ==> (classifier matches Some(k) && (k == "id"@ || k == "abstract"@ || k == "i"@ || k == "type"@
            || k == "t"@ || k == "category"@ || k == "c"@)),
    ensures
        term_selects(TermSpec { classifier, pattern: p1, exact }, items, ix, x)
            == term_selects(TermSpec { classifier, pattern: p2, exact }, items, ix, x),
{
}

/// The empty query selects every item.
pub proof fn law_empty_query_selects_all(items: Seq<IndexedItem>, ix: SearchIndex, x: usize)
    ensures
        query_selects(Seq::empty(), items, ix, x) <==> x < items.len(),
{
}

/// With an index built from the items, an exact `id:` term selects exactly
/// the items whose id (or, without id, abstract) equals the pattern up to case.
pub proof fn law_exact_id_lookup(pattern: Seq<char>, items: Seq<IndexedItem>, ix: SearchIndex, x: usize)
    requires
        indexes(ix, items, items.len() as int),
    ensures
        term_selects(TermSpec { classifier: Some("id"@), pattern, exact: true }, items, ix, x) <==> (x
            < items.len() && id_or_abstract(items[x as int]).len() > 0 && lowercase(
            id_or_abstract(items[x as int]),
        ) == lowercase(pattern)),
{
    assert(listed(ix.by_id.view(), lowercase(pattern), x) <==> (x < items.len() && id_or_abstract(items[x as int]).len() > 0
        && lowercase(id_or_abstract(items[x as int])) == lowercase(pattern)));
}

/// With an index built from the items, an exact `type:` term selects exactly
/// the items whose type equals the pattern up to case, and an exact
/// `category:` term those whose string category does.
pub proof fn law_exact_type_and_category_lookup(pattern: Seq<char>, items: Seq<IndexedItem>, ix: SearchIndex, x: usize)
    requires
        indexes(ix, items, items.len() as int),
    ensures
        term_selects(TermSpec { classifier: Some("type"@), pattern, exact: true }, items, ix, x) <==> (x
            < items.len() && items[x as int].item_type@.len() > 0 && lowercase(items[x as int].item_type@)
            == lowercase(pattern)),
        term_selects(TermSpec { classifier: Some("category"@), pattern, exact: true }, items, ix, x) <==> (x
            < items.len() && category_lowered_is(items[x as int], lowercase(pattern))),
{
    reveal_strlit("type");
    reveal_strlit("category");
    reveal_strlit("id");
    reveal_strlit("abstract");
    reveal_strlit("i");
    reveal_strlit("t");
    assert("type"@ != "id"@ && "type"@ != "abstract"@ && "type"@ != "i"@) by {
        assert("type"@[0] != "id"@[0] && "type"@[0] != "abstract"@[0] && "type"@[0] != "i"@[0]);
    }
    assert("category"@ != "id"@ && "category"@ != "abstract"@ && "category"@ != "i"@) by {
        assert("category"@[0] != "id"@[0] && "category"@[0] != "abstract"@[0] && "category"@[0] != "i"@[0]);
    }
    assert("category"@ != "type"@ && "category"@ != "t"@) by {
        assert("category"@[0] != "type"@[0] && "category"@[0] != "t"@[0]);
    }
    assert(listed(ix.by_type.view(), lowercase(pattern), x) <==> (x < items.len() && items[x as int].item_type@.len() > 0
        && lowercase(items[x as int].item_type@) == lowercase(pattern)));
    assert(listed(ix.by_category.view(), lowercase(pattern), x) <==> (x < items.len() && category_lowered_is(
        items[x as int],
        lowercase(pattern),
    )));
}

/// With an index built from the items, a plain term selects exactly the
/// items that have a word containing the lowercased pattern.
pub proof fn law_word_search(pattern: Seq<char>, items: Seq<IndexedItem>, ix: SearchIndex, x: usize)
    requires
        indexes(ix, items, items.len() as int),
    ensures
        term_selects(TermSpec { classifier: None, pattern, exact: false }, items, ix, x) <==> (x
            < items.len() && exists|w: Seq<char>| #[trigger] item_has_word(items[x as int], w) && has_infix(w, lowercase(pattern))),
{
    let p = lowercase(pattern);
    if term_selects(TermSpec { classifier: None, pattern, exact: false }, items, ix, x) {
        let w = choose|w: Seq<char>| #[trigger] listed(ix.word_index.view(), w, x) && has_infix(w, p);
        assert(listed(ix.word_index.view(), w, x));
        assert(item_has_word(items[x as int], w));
    }
    if x < items.len() && exists|w: Seq<char>| #[trigger] item_has_word(items[x as int], w) && has_infix(w, p) {
        let w = choose|w: Seq<char>| #[trigger] item_has_word(items[x as int], w) && has_infix(w, p);
        assert(listed(ix.word_index.view(), w, x));
    }
}

/// Cycling the focus: three steps forward come back, and a step back undoes a step forward.
pub proof fn law_focus_cycle(p: FocusPane)
    ensures
        next_pane(next_pane(next_pane(p))) == p,
        prev_pane(next_pane(p)) == p,
        next_pane(prev_pane(p)) == p,
{
}

/// Tab followed by Shift-Tab returns the focus to where it was.
pub proof fn law_tab_then_backtab(u: UiView, c: KeyCtx)
    ensures
        key_ui(key_ui(u, c, AppKeyEvent { code: AppKeyCode::Tab, ctrl: false, alt: false, shift: false, is_release: false }), c, AppKeyEvent { code: AppKeyCode::BackTab, ctrl: false, alt: false, shift: false, is_release: false }).focus
            == u.focus,
{
}

/// A released key changes nothing.
pub proof fn law_release_ignored(u: UiView, c: KeyCtx, code: AppKeyCode, ctrl: bool, alt: bool, shift: bool)
    ensures
        key_ui(u, c, AppKeyEvent { code, ctrl, alt, shift, is_release: true }) == u,
{
}

/// In the filter, stepping back into the history with Up and forward again
/// with Down gives back the filter that was being typed, with the cursor at
/// its end, outside the history, which is unchanged.
pub proof fn law_history_up_then_down(u: UiView, c: KeyCtx)
    requires
        u.mode == InputMode::Filtering,
        !u.show_help,
        !u.show_version_picker,
        u.history_index is None,
        0 < u.history.len() <= usize::MAX,
        u.filter.len() <= usize::MAX,
    ensures
        ({
            let up = key_ui(u, c, AppKeyEvent { code: AppKeyCode::Up, ctrl: false, alt: false, shift: false, is_release: false });
            let down = key_ui(up, c, AppKeyEvent { code: AppKeyCode::Down, ctrl: false, alt: false, shift: false, is_release: false });
            &&& up.filter == u.history.last()
            &&& down.filter == u.filter
            &&& down.cursor == u.filter.len()
            &&& down.history_index is None
            &&& down.history == u.history
            &&& down.mode == InputMode::Filtering
        }),
{
    let up = key_ui(u, c, AppKeyEvent { code: AppKeyCode::Up, ctrl: false, alt: false, shift: false, is_release: false });
    let last = (u.history.len() - 1) as usize;
    let u1 = UiView { stashed: u.filter, history_index: Some(last), ..u };
    assert(up == crate::app_core::reducer::history_up(u, c));
    assert(up == ui_refilter(ui_end(UiView { filter: u.history[last as int], ..u1 }), c.items, c.ix));
    assert(up.history_index == Some(last));
    assert(up.stashed == u.filter);
    assert(up.filter == u.history.last());
}

/// In the filter, typing a character and then deleting it with Backspace
/// restores the filter text and the cursor.
pub proof fn law_type_then_backspace(u: UiView, c: KeyCtx, ch: char)
    requires
        u.mode == InputMode::Filtering,
        !u.show_help,
        !u.show_version_picker,
        u.cursor <= u.filter.len(),
        u.filter.len() < usize::MAX,
    ensures
        ({
            let typed = key_ui(u, c, AppKeyEvent { code: AppKeyCode::Char(ch), ctrl: false, alt: false, shift: false, is_release: false });
            let back = key_ui(typed, c, AppKeyEvent { code: AppKeyCode::Backspace, ctrl: false, alt: false, shift: false, is_release: false });
            back.filter == u.filter && back.cursor == u.cursor
        }),
{
    let typed = key_ui(u, c, AppKeyEvent { code: AppKeyCode::Char(ch), ctrl: false, alt: false, shift: false, is_release: false });
    let i = u.cursor as int;
    assert(typed.filter == crate::app_core::state::insert_at(u.filter, i, ch));
    assert(typed.cursor == u.cursor + 1);
    assert(typed.filter.remove(i) =~= u.filter);
}

/// Highlighting keeps the text: there is one line of spans per line of the
/// JSON text, and the spans of a line, joined, give back the line (for a
/// line where no unclosed string follows other text: there the
/// highlighter repeats the text before the quote).
pub proof fn law_highlight_keeps_text(json: Seq<char>, style: JsonStyle, i: int)
    requires
        0 <= i < text_lines(json).len(),
        text_kept(text_lines(json)[i], 0),
    ensures
        highlighted(json, style).len() == text_lines(json).len(),
        contents(highlighted(json, style)[i]) == text_lines(json)[i],
{
    lemma_document_contents(text_lines(json), style, crate::highlight::initial_parser(), i);
}

/// Wrapping keeps the text: the wrapped lines, joined, hold the same
/// characters as the lines they came from (wrapping to no width keeps no
/// text, so there the lines must hold none).
pub proof fn law_wrap_keeps_text(lines: Seq<Seq<SpanSpec>>, width: nat)
    requires
        width > 0 || flat_contents(lines).len() == 0,
    ensures
        flat_contents(wrap_all(lines, width)) == flat_contents(lines),
{
    if width > 0 {
        lemma_wrap_all_contents(lines, width);
    } else {
        lemma_wrap_nothing(lines);
    }
}

/// Wrapping to no width keeps no text.
proof fn lemma_wrap_nothing(lines: Seq<Seq<SpanSpec>>)
    ensures
        flat_contents(wrap_all(lines, 0)).len() == 0,
    decreases lines.len(),
{
    if lines.len() > 0 {
        lemma_wrap_nothing(lines.drop_last());
        let l = lines.last();
        lemma_flat_append(wrap_all(lines.drop_last(), 0), wrap_line(l, 0));
        if l.len() == 0 {
            lemma_flat_single(Seq::<SpanSpec>::empty());
            assert(contents(Seq::<SpanSpec>::empty()) =~= Seq::<char>::empty());
        } else {
            assert(wrap_line(l, 0) == Seq::<Seq<SpanSpec>>::empty());
            assert(flat_contents(Seq::<Seq<SpanSpec>>::empty()) == Seq::<char>::empty());
        }
    }
}

/// `escape_quotes` seen from the front: the first character's escape, then
/// the escaped rest.
proof fn lemma_escape_front(c: char, w: Seq<char>)
    ensures
        escape_quotes(seq![c] + w) == escape_char(c) + escape_quotes(w),
    decreases w.len(),
{
    let s = seq![c] + w;
    if w.len() == 0 {
        assert(s.drop_last() =~= Seq::<char>::empty());
        assert(s.last() == c);
        assert(escape_quotes(Seq::<char>::empty()) == Seq::<char>::empty());
        assert(escape_quotes(w) == Seq::<char>::empty());
        assert(escape_quotes(s) =~= escape_char(c) + escape_quotes(w));
    } else {
        assert(s.drop_last() =~= seq![c] + w.drop_last());
        lemma_escape_front(c, w.drop_last());
        assert(escape_quotes(s) =~= escape_char(c) + escape_quotes(w));
    }
}

/// Unescaping undoes escaping.
proof fn lemma_unescape_escape(v: Seq<char>)
    ensures
        unescape(escape_quotes(v)) == v,
    decreases v.len(),
{
    if v.len() > 0 {
        let c = v[0];
        let w = v.skip(1);
        assert(v =~= seq![c] + w);
        lemma_escape_front(c, w);
        lemma_unescape_escape(w);
        let raw = escape_char(c) + escape_quotes(w);
        if c == '\\' || c == '\'' {
            assert(raw.skip(2) =~= escape_quotes(w));
        } else {
            assert(raw.skip(1) =~= escape_quotes(w));
        }
        assert(unescape(raw) =~= seq![c] + w);
    }
}

/// Pushing a backslash adds one to the trailing run.
proof fn lemma_trailing_push(s: Seq<char>)
    ensures
        trailing_backslashes(s.push('\\')) == 1 + trailing_backslashes(s),
{
    assert(s.push('\\').drop_last() =~= s);
}

/// After an even run of backslashes, an escaped value leaves an even run,
/// and every apostrophe inside it follows an odd run (so it is escaped).
proof fn lemma_escaped_quotes(pre: Seq<char>, v: Seq<char>)
    requires
        trailing_backslashes(pre) % 2 == 0,
    ensures
        trailing_backslashes(pre + escape_quotes(v)) % 2 == 0,
        forall|k: int|
            0 <= k < escape_quotes(v).len() && escape_quotes(v)[k] == '\'' ==> #[trigger] trailing_backslashes(
                pre + escape_quotes(v).take(k),
            ) % 2 == 1,
    decreases v.len(),
{
    let e = escape_quotes(v);
    if v.len() == 0 {
        assert(pre + e =~= pre);
    } else {
        let v1 = v.drop_last();
        let c = v.last();
        lemma_escaped_quotes(pre, v1);
        let e1 = escape_quotes(v1);
        let s = pre + e1;
        assert(e == e1 + escape_char(c));
        if c == '\\' {
            assert(pre + e =~= s.push('\\').push('\\'));
            lemma_trailing_push(s);
            lemma_trailing_push(s.push('\\'));
        } else if c == '\'' {
            assert(pre + e =~= s.push('\\').push('\''));
            assert((pre + e).last() == '\'');
            lemma_trailing_push(s);
        } else {
            assert(pre + e =~= s.push(c));
            assert((pre + e).last() == c);
        }
        assert forall|k: int| 0 <= k < e.len() && e[k] == '\'' implies #[trigger] trailing_backslashes(
            pre + e.take(k),
        ) % 2 == 1 by {
            if k < e1.len() {
                assert(e.take(k) =~= e1.take(k));
                assert(e1[k] == e[k]);
                assert(trailing_backslashes(pre + e1.take(k)) % 2 == 1);
            } else {
                assert(c == '\'' && k == e1.len() + 1);
                assert(pre + e.take(k) =~= s.push('\\'));
                lemma_trailing_push(s);
            }
        }
    }
}

/// The scanner over `path:'escaped value'` keeps a single open term: outside
/// the quotes up to the colon, inside them over the escaped value.
proof fn lemma_split_clicked(path: Seq<char>, v: Seq<char>, n: int)
    requires
        forall|i: int| 0 <= i < path.len() ==> !char_is_whitespace(#[trigger] path[i]),
        forall|i: int| 0 <= i < path.len() && #[trigger] path[i] == '\'' ==> i > 0 && path[i - 1] != ':',
        !char_is_whitespace(':'),
        !char_is_whitespace('\''),
        0 <= n <= path.len() + escape_quotes(v).len() + 3,
    ensures
        ({
            let q = path + seq![':'] + quoted_term(v);
            let a = path.len() as int;
            let m = escape_quotes(v).len() as int;
            let st = split_prefix(q, n);
            &&& n == 0 ==> st == SplitState { terms: Seq::empty(), start: None, in_quotes: false }
            &&& 1 <= n <= a + 1 ==> st == SplitState { terms: Seq::empty(), start: Some(0), in_quotes: false }
            &&& a + 2 <= n <= a + 2 + m ==> st == SplitState { terms: Seq::empty(), start: Some(0), in_quotes: true }
            &&& n == a + 3 + m ==> st.terms == Seq::<Seq<char>>::empty() && st.start == Some(0int)
        }),
    decreases n,
{
    let e = escape_quotes(v);
    let q = path + seq![':'] + quoted_term(v);
    let a = path.len() as int;
    let m = e.len() as int;
    assert(q =~= path + seq![':', '\''] + e + seq!['\'']);
    if n > 0 {
        lemma_split_clicked(path, v, n - 1);
        let i = n - 1;
        let st = split_prefix(q, i);
        assert(split_prefix(q, n) == crate::matcher::split_step(q, st, i));
        if i < a {
            assert(q[i] == path[i]);
            if path[i] == '\'' {
                let before = q.subrange(0, i);
                assert(before[i - 1] == path[i - 1]);
                assert(before.subrange(before.len() - 1, before.len() as int)[0] == path[i - 1]);
            }
        } else if i == a {
            assert(q[i] == ':');
        } else if i == a + 1 {
            assert(q[i] == '\'');
            let before = q.subrange(0, i);
            assert(before.last() == ':');
            assert(trailing_backslashes(before) == 0);
            assert(before.subrange(before.len() - 1, before.len() as int) =~= seq![':']);
        } else if i < a + 2 + m {
            let k = i - a - 2;
            assert(q[i] == e[k]);
            if e[k] == '\'' {
                let pre = path + seq![':', '\''];
                assert(pre.last() == '\'');
                assert(trailing_backslashes(pre) == 0);
                lemma_escaped_quotes(pre, v);
                assert(q.subrange(0, i) =~= pre + e.take(k));
                assert(trailing_backslashes(pre + e.take(k)) % 2 == 1);
            }
        }
    }
}

/// A term added by clicking a value stays one term of the filter, whatever
/// spaces and apostrophes the value holds (for a path without whitespace in
/// which no apostrophe would open a quoted segment: none starts the path or
/// follows a colon).
pub proof fn law_clicked_term_stays_whole(path: Seq<char>, v: Seq<char>)
    requires
        forall|i: int| 0 <= i < path.len() ==> !char_is_whitespace(#[trigger] path[i]),
        forall|i: int| 0 <= i < path.len() && #[trigger] path[i] == '\'' ==> i > 0 && path[i - 1] != ':',
    ensures
        split_terms(path + ":"@ + quoted_term(v)) == seq![path + ":"@ + quoted_term(v)],
{
    reveal_strlit(":");
    reveal(char_is_whitespace);
    let q = path + ":"@ + quoted_term(v);
    let a = path.len() as int;
    let m = escape_quotes(v).len() as int;
    assert(":"@ =~= seq![':']);
    lemma_split_clicked(path, v, a + m + 3);
    assert(q.len() == a + m + 3);
    assert(q.subrange(0, q.len() as int) =~= q);
}

/// A term added by clicking a value parses as an exact match of the value
/// under the clicked path (for a path without a colon, which would end the
/// classifier early).
pub proof fn law_clicked_term_parses(path: Seq<char>, v: Seq<char>)
    requires
        forall|i: int| 0 <= i < path.len() ==> #[trigger] path[i] != ':',
    ensures
        parse_term_spec(path + ":"@ + quoted_term(v)) == (TermSpec { classifier: Some(path), pattern: v, exact: true }),
{
    reveal_strlit(":");
    let e = escape_quotes(v);
    let q = path + ":"@ + quoted_term(v);
    let a = path.len() as int;
    assert(":"@ =~= seq![':']);
    lemma_first_index(q, ':');
    let k = first_index(q, ':');
    if k < a {
        assert(q[k] == path[k]);
    }
    if k > a {
        assert(q[a] == ':');
    }
    assert(k == a);
    assert(q.subrange(0, a) =~= path);
    let t = q.subrange(a + 1, q.len() as int);
    assert(t =~= quoted_term(v));
    assert(t.subrange(1, t.len() - 1) =~= e);
    lemma_unescape_escape(v);
}

/// A wrapped line fits in `width` cells, or it is a single character wider
/// than `width`.
pub open spec fn fits_or_single(l: Seq<SpanSpec>, width: nat) -> bool {
    ||| text_width(contents(l)) <= width
    ||| (contents(l).len() == 1 && cell_width(contents(l)[0]) > width)
}

/// Every line of `ls` fits in `width` cells (or is a single wide character).
pub open spec fn all_fit(ls: Seq<Seq<SpanSpec>>, width: nat) -> bool {
    forall|j: int| 0 <= j < ls.len() ==> fits_or_single(#[trigger] ls[j], width)
}

proof fn lemma_all_fit_concat(a: Seq<Seq<SpanSpec>>, b: Seq<Seq<SpanSpec>>, width: nat)
    requires
        all_fit(a, width),
        all_fit(b, width),
    ensures
        all_fit(a + b, width),
{
    assert forall|j: int| 0 <= j < (a + b).len() implies fits_or_single(#[trigger] (a + b)[j], width) by {
        if j < a.len() {
            assert((a + b)[j] == a[j]);
        } else {
            assert((a + b)[j] == b[j - a.len()]);
        }
    }
}

/// The width of a text is the sum of the widths of its parts.
proof fn lemma_text_width_append(a: Seq<char>, b: Seq<char>)
    ensures
        text_width(a + b) == text_width(a) + text_width(b),
    decreases b.len(),
{
    if b.len() == 0 {
        assert(a + b =~= a);
    } else {
        lemma_text_width_append(a, b.drop_last());
        assert((a + b).drop_last() =~= a + b.drop_last());
        assert((a + b).last() == b.last());
    }
}

/// The width `fit` reports is that of the characters it takes.
proof fn lemma_fit_width(s: Seq<char>, room: int)
    ensures
        fit(s, room).0 <= s.len(),
        fit(s, room).1 == text_width(s.take(fit(s, room).0 as int)),
    decreases s.len(),
{
    lemma_fit_bounds(s, room);
    if s.len() > 0 && cell_width(s[0]) <= room {
        let t = s.drop_first();
        let r = fit(t, room - cell_width(s[0]));
        lemma_fit_width(t, room - cell_width(s[0]));
        assert(s.take(r.0 + 1int) =~= seq![s[0]] + t.take(r.0 as int));
        lemma_text_width_append(seq![s[0]], t.take(r.0 as int));
        assert(seq![s[0]].drop_last() =~= Seq::<char>::empty());
        assert(seq![s[0]].last() == s[0]);
        assert(text_width(Seq::<char>::empty()) == 0);
        assert(text_width(seq![s[0]]) == cell_width(s[0]));
        assert(fit(s, room) == (r.0 + 1, r.1 + cell_width(s[0])));
    } else {
        assert(s.take(0) =~= Seq::<char>::empty());
    }
}

/// Wrapping the rest of a line from a line being filled that fits gives
/// lines that fit.
proof fn lemma_wrap_from_fits(spans: Seq<SpanSpec>, i: int, rest: Seq<char>, width: nat, cur: Seq<SpanSpec>, used: nat)
    requires
        text_width(contents(cur)) == used,
        used <= width,
    ensures
        all_fit(wrap_from(spans, i, rest, width, cur, used), width),
    decreases spans.len() - i, 2 * rest.len() + (if cur.len() > 0 || used > 0 { 1int } else { 0int }),
{
    let empty_cur = Seq::<SpanSpec>::empty();
    assert(contents(empty_cur) =~= Seq::<char>::empty());
    if width == 0 || i < 0 || i >= spans.len() {
    } else if rest.len() == 0 {
        if i + 1 < spans.len() {
            lemma_wrap_from_fits(spans, i + 1, spans[i + 1].content, width, cur, used);
        } else if cur.len() > 0 {
            assert(seq![cur][0] == cur);
        }
    } else if used >= width {
        lemma_wrap_from_fits(spans, i, rest, width, empty_cur, 0);
        assert(seq![cur][0] == cur);
        lemma_all_fit_concat(seq![cur], wrap_from(spans, i, rest, width, empty_cur, 0), width);
    } else {
        let (k, w) = fit(rest, width - used);
        lemma_fit_width(rest, width - used);
        lemma_fit_bounds(rest, width - used);
        if k > 0 {
            let p = piece(spans[i], rest.take(k as int));
            lemma_contents_append(cur, seq![p]);
            lemma_contents_single(p);
            assert(cur + seq![p] =~= cur.push(p));
            lemma_text_width_append(contents(cur), rest.take(k as int));
            lemma_wrap_from_fits(spans, i, rest.skip(k as int), width, cur.push(p), used + w);
        } else if cur.len() > 0 {
            lemma_wrap_from_fits(spans, i, rest, width, empty_cur, 0);
            assert(seq![cur][0] == cur);
            lemma_all_fit_concat(seq![cur], wrap_from(spans, i, rest, width, empty_cur, 0), width);
        } else {
            let p = piece(spans[i], rest.take(1));
            lemma_contents_single(p);
            assert(rest.take(1)[0] == rest[0]);
            lemma_wrap_from_fits(spans, i, rest.skip(1), width, empty_cur, 0);
            assert(seq![seq![p]][0] == seq![p]);
            lemma_all_fit_concat(seq![seq![p]], wrap_from(spans, i, rest.skip(1), width, empty_cur, 0), width);
        }
    }
}

/// Wrapping gives lines that fit in the width, but for a line holding a
/// single character wider than the width.
pub proof fn law_wrapped_lines_fit(lines: Seq<Seq<SpanSpec>>, width: nat)
    ensures
        all_fit(wrap_all(lines, width), width),
    decreases lines.len(),
{
    if lines.len() > 0 {
        law_wrapped_lines_fit(lines.drop_last(), width);
        let l = lines.last();
        let empty_cur = Seq::<SpanSpec>::empty();
        assert(contents(empty_cur) =~= Seq::<char>::empty());
        if l.len() == 0 {
            assert(wrap_line(l, width)[0] == empty_cur);
        } else {
            lemma_wrap_from_fits(l, 0, l[0].content, width, empty_cur, 0);
        }
        lemma_all_fit_concat(wrap_all(lines.drop_last(), width), wrap_line(l, width), width);
    }
}

/// A longer prefix is at least as wide.
proof fn lemma_prefix_width_grows(t: Seq<char>, a: int, b: int)
    requires
        0 <= a <= b <= t.len(),
    ensures
        text_width(t.take(a)) <= text_width(t.take(b)),
{
    assert(t.take(b) =~= t.take(a) + t.subrange(a, b));
    lemma_text_width_append(t.take(a), t.subrange(a, b));
}

/// One more character adds its cells.
proof fn lemma_prefix_width_step(t: Seq<char>, k: int)
    requires
        0 <= k < t.len(),
    ensures
        text_width(t.take(k + 1)) == text_width(t.take(k)) + cell_width(t[k]),
{
    assert(t.take(k + 1).drop_last() =~= t.take(k));
    assert(t.take(k + 1).last() == t[k]);
}

/// Scanning from `j` up to `k` for the first character that passes the
/// column where `k` is drawn stops at `k`.
proof fn lemma_cursor_scan(t: Seq<char>, k: int, j: int)
    requires
        0 <= j <= k <= t.len(),
        k < t.len() ==> cell_width(t[k]) > 0,
    ensures
        column_cursor_from(t, text_width(t.take(k)) as int, j) == k,
    decreases k - j,
{
    let col = text_width(t.take(k)) as int;
    if j < k {
        lemma_prefix_width_grows(t, j + 1, k);
        lemma_cursor_scan(t, k, j + 1);
    } else if k < t.len() {
        lemma_prefix_width_step(t, k);
    }
}

/// Clicking in the filter where the cursor is drawn puts the cursor back
/// there: the column of the cursor at `k` leads back to `k` (when the
/// character at `k`, if any, takes up cells; a click cannot land before a
/// character of no width).
pub proof fn law_click_at_cursor_column(t: Seq<char>, k: int)
    requires
        0 <= k <= t.len(),
        k < t.len() ==> cell_width(t[k]) > 0,
    ensures
        column_cursor(t, text_width(prefix(t, k)) as int) == k,
{
    lemma_cursor_scan(t, k, 0);
}

/// A click in the filter puts the cursor under the click: the text before
/// the cursor ends at or before the clicked column, and with one more
/// character it would pass it.
pub proof fn law_click_cursor_under_column(t: Seq<char>, col: int)
    requires
        col >= 0,
    ensures
        0 <= column_cursor(t, col) <= t.len(),
        text_width(prefix(t, column_cursor(t, col))) <= col,
        column_cursor(t, col) < t.len() ==> text_width(t.take(column_cursor(t, col) + 1)) > col,
{
    lemma_cursor_scan_bounds(t, col, 0);
}

/// The scan from `j` (where the text before `j` fits the column) stops at a
/// cursor whose text fits and whose next character would not.
proof fn lemma_cursor_scan_bounds(t: Seq<char>, col: int, j: int)
    requires
        0 <= j <= t.len(),
        col >= 0,
        text_width(t.take(j)) <= col,
    ensures
        j <= column_cursor_from(t, col, j) <= t.len(),
        text_width(t.take(column_cursor_from(t, col, j))) <= col,
        column_cursor_from(t, col, j) < t.len() ==> text_width(t.take(column_cursor_from(t, col, j) + 1)) > col,
    decreases t.len() - j,
{
    if j < t.len() && !(text_width(t.take(j + 1)) > col) {
        lemma_cursor_scan_bounds(t, col, j + 1);
    } else if j == t.len() {
        assert(t.take(j) =~= t);
    }
}

/// The list shows exactly the items the filter selects, in order.
pub open spec fn list_matches_filter(u: UiView, items: Seq<IndexedItem>, ix: SearchIndex) -> bool {
    u.filtered == matching(u.filter, items, ix)
}

/// Every key keeps the list showing exactly what the filter selects: a key
/// that changes the filter recomputes the list.
pub proof fn law_keys_keep_list_matching_filter(u: UiView, c: KeyCtx, e: AppKeyEvent)
    requires
        list_matches_filter(u, c.items, c.ix),
    ensures
        list_matches_filter(key_ui(u, c, e), c.items, c.ix),
{
}

/// Every mouse event keeps the list showing exactly what the filter selects:
/// a click that changes the filter recomputes the list.
pub proof fn law_mouse_keeps_list_matching_filter(u: UiView, app: &AppState, e: AppMouseEvent)
    requires
        list_matches_filter(u, app.indexed_items@, app.search_index),
    ensures
        list_matches_filter(mouse_ui(u, app, e), app.indexed_items@, app.search_index),
{
}

/// The unfiltered list, every item in order, is what the empty filter
/// selects (so a new state's list matches its filter).
pub proof fn law_unfiltered_list_matches_empty_filter(items: Seq<IndexedItem>, ix: SearchIndex)
    requires
        items.len() <= usize::MAX,
    ensures
        matching(Seq::empty(), items, ix) == Seq::new(items.len(), |i: int| i as usize),
{
    let r = Seq::new(items.len(), |i: int| i as usize);
    assert forall|x: usize| r.contains(x) <==> query_selects(Seq::empty(), items, ix, x) by {
        if x < items.len() {
            assert(r[x as int] == x);
        }
    }
    lemma_matching(Seq::empty(), items, ix, r);
}

/// Tab moves the focus to the next pane (list, details, filter, in a
/// cycle) and Shift-Tab or BackTab to the previous one; the filter pane
/// types and the others navigate, and the filter text is kept.
pub proof fn law_tab_cycles_panes(u: UiView, c: KeyCtx, e: AppKeyEvent)
    requires
        !e.is_release,
        e.code == AppKeyCode::Tab || e.code == AppKeyCode::BackTab,
    ensures
        key_ui(u, c, e) == ui_focus(u, if e.code == AppKeyCode::BackTab || e.shift { prev_pane(u.focus) } else { next_pane(u.focus) }),
        key_ui(u, c, e).mode == (if key_ui(u, c, e).focus == FocusPane::Filter { InputMode::Filtering } else { InputMode::Normal }),
        key_ui(u, c, e).filter == u.filter,
        next_pane(FocusPane::List) == FocusPane::Details,
        next_pane(FocusPane::Details) == FocusPane::Filter,
        next_pane(FocusPane::Filter) == FocusPane::List,
{
    assert(!(e.ctrl && e.code == AppKeyCode::Char('g')));
    assert(!(e.ctrl && e.code == AppKeyCode::Char('r')));
}

/// While the help overlay is open, `?` and Esc close it and every other key
/// (but the global Tab, Shift-Tab, Ctrl-G and Ctrl-R) changes nothing.
pub proof fn law_help_overlay_swallows_keys(u: UiView, c: KeyCtx, e: AppKeyEvent)
    requires
        u.show_help,
        !e.is_release,
        e.code != AppKeyCode::Tab,
        e.code != AppKeyCode::BackTab,
        !(e.ctrl && (e.code == AppKeyCode::Char('g') || e.code == AppKeyCode::Char('r'))),
    ensures
        key_ui(u, c, e) == (if e.code == AppKeyCode::Char('?') || e.code == AppKeyCode::Esc {
            UiView { show_help: false, ..u }
        } else {
            u
        }),
{
}

/// A text that contains `b`, where `b` contains `a`, contains `a`.
proof fn lemma_infix_trans(k: Seq<char>, b: Seq<char>, a: Seq<char>)
    requires
        has_infix(k, b),
        has_infix(b, a),
    ensures
        has_infix(k, a),
{
    let i = choose|i: int| 0 <= i <= k.len() - b.len() && #[trigger] k.subrange(i, i + b.len()) == b;
    let j = choose|j: int| 0 <= j <= b.len() - a.len() && #[trigger] b.subrange(j, j + a.len()) == a;
    assert(k.subrange(i + j, i + j + a.len()) =~= a) by {
        assert forall|t: int| 0 <= t < a.len() implies k.subrange(i + j, i + j + a.len())[t] == a[t] by {
            assert(k.subrange(i, i + b.len())[j + t] == b[j + t]);
            assert(b.subrange(j, j + a.len())[t] == b[j + t]);
        }
    }
}

/// A word-search pattern whose lowercase form contains another's finds no
/// more items than the other: a longer pattern only narrows the search.
pub proof fn law_longer_pattern_finds_no_more(p1: Seq<char>, p2: Seq<char>, items: Seq<IndexedItem>, ix: SearchIndex, x: usize)
    requires
        has_infix(lowercase(p2), lowercase(p1)),
    ensures
        term_selects(TermSpec { classifier: None, pattern: p2, exact: false }, items, ix, x)
            ==> term_selects(TermSpec { classifier: None, pattern: p1, exact: false }, items, ix, x),
{
    if term_selects(TermSpec { classifier: None, pattern: p2, exact: false }, items, ix, x) {
        let m = ix.word_index.view();
        let k = choose|k: Seq<char>| #[trigger] listed(m, k, x) && has_infix(k, lowercase(p2));
        lemma_infix_trans(k, lowercase(p2), lowercase(p1));
        assert(listed(m, k, x) && has_infix(k, lowercase(p1)));
    }
}

/// The empty word-search pattern finds every item that has a word: with an
/// index built from the items, exactly the items with at least one word.
pub proof fn law_empty_pattern_finds_every_word(items: Seq<IndexedItem>, ix: SearchIndex, x: usize)
    requires
        indexes(ix, items, items.len() as int),
    ensures
        lowercase(Seq::empty()) == Seq::<char>::empty(),
        term_selects(TermSpec { classifier: None, pattern: Seq::empty(), exact: false }, items, ix, x)
            <==> (x < items.len() && exists|w: Seq<char>| #[trigger] item_has_word(items[x as int], w)),
{
    reveal(lowercase);
    assert(ascii_lower(Seq::<char>::empty()) =~= Seq::<char>::empty());
    let m = ix.word_index.view();
    if x < items.len() && exists|w: Seq<char>| #[trigger] item_has_word(items[x as int], w) {
        let w = choose|w: Seq<char>| #[trigger] item_has_word(items[x as int], w);
        assert(listed(m, w, x));
        assert(w.subrange(0int, 0int + Seq::<char>::empty().len()) =~= Seq::<char>::empty());
        assert(has_infix(w, Seq::<char>::empty()));
    }
    if listed_under_infix(m, Seq::<char>::empty(), x) {
        let k = choose|k: Seq<char>| #[trigger] listed(m, k, x) && has_infix(k, Seq::<char>::empty());
        assert(item_has_word(items[x as int], k));
    }
}

/// Capital and small forms of an ASCII text have the same lowercase form.
pub proof fn lemma_ascii_case_folds(p: Seq<char>)
    requires
        is_ascii_text(p),
    ensures
        lowercase(ascii_upper(p)) == lowercase(p),
        lowercase(ascii_lower(p)) == lowercase(p),
{
    reveal(lowercase);
    let up = ascii_upper(p);
    let lo = ascii_lower(p);
    assert forall|i: int| 0 <= i < p.len() implies #[trigger] up[i] < '\u{80}' && ascii_lower_char(up[i])
        == ascii_lower_char(p[i]) by {
        let c = p[i];
        if 'a' <= c && c <= 'z' {
            assert(((c as u32) - 32) as char == up[i]);
        }
    }
    assert forall|i: int| 0 <= i < p.len() implies #[trigger] lo[i] < '\u{80}' && ascii_lower_char(lo[i])
        == ascii_lower_char(p[i]) by {
    }
    assert(is_ascii_text(up));
    assert(is_ascii_text(lo));
    assert(ascii_lower(up) =~= ascii_lower(p));
    assert(ascii_lower(lo) =~= ascii_lower(p));
}

/// Search over ASCII patterns ignores case: a pattern selects the same items
/// in capitals as in small letters, in every term but an exact match on a
/// field path or on any value.
pub proof fn law_ascii_case_ignored(
    classifier: Option<Seq<char>>,
    p: Seq<char>,
    exact: bool,
    items: Seq<IndexedItem>,
    ix: SearchIndex,
    x: usize,
)
    requires
        is_ascii_text(p),
        exact ==> (classifier matches Some(k) && (k == "id"@ || k == "abstract"@ || k == "i"@ || k == "type"@
            || k == "t"@ || k == "category"@ || k == "c"@)),
    ensures
        term_selects(TermSpec { classifier, pattern: ascii_upper(p), exact }, items, ix, x)
            == term_selects(TermSpec { classifier, pattern: ascii_lower(p), exact }, items, ix, x),
{
    lemma_ascii_case_folds(p);
    law_search_ignores_case(classifier, ascii_upper(p), p, exact, items, ix, x);
    law_search_ignores_case(classifier, ascii_lower(p), p, exact, items, ix, x);
}

/// Two queries joined by a space select what both select (AND logic), in
/// either order, where each query is one term and the joined texts split
/// into those two terms.
pub proof fn law_joined_queries_select_both(q1: Seq<char>, q2: Seq<char>, items: Seq<IndexedItem>, ix: SearchIndex, x: usize)
    requires
        split_terms(q1) == seq![q1],
        split_terms(q2) == seq![q2],
        split_terms(q1 + " "@ + q2) == seq![q1, q2],
        split_terms(q2 + " "@ + q1) == seq![q2, q1],
    ensures
        query_selects(q1 + " "@ + q2, items, ix, x) <==> (query_selects(q1, items, ix, x) && query_selects(q2, items, ix, x)),
        query_selects(q1 + " "@ + q2, items, ix, x) == query_selects(q2 + " "@ + q1, items, ix, x),
{
    reveal_strlit(" ");
    assert((q1 + " "@ + q2).len() > 0);
    assert((q2 + " "@ + q1).len() > 0);
    assert(q1.len() > 0) by {
        if q1.len() == 0 {
            assert(split_terms(q1) == Seq::<Seq<char>>::empty());
        }
    }
    assert(q2.len() > 0) by {
        if q2.len() == 0 {
            assert(split_terms(q2) == Seq::<Seq<char>>::empty());
        }
    }
    let t1 = parse_term_spec(q1);
    let t2 = parse_term_spec(q2);
    assert(crate::matcher::query_terms(q1) =~= seq![t1]);
    assert(crate::matcher::query_terms(q2) =~= seq![t2]);
    assert(crate::matcher::query_terms(q1 + " "@ + q2) =~= seq![t1, t2]);
    assert(crate::matcher::query_terms(q2 + " "@ + q1) =~= seq![t2, t1]);
    let a = term_selects(t1, items, ix, x);
    let b = term_selects(t2, items, ix, x);
    let ts1 = seq![t1];
    let ts2 = seq![t2];
    if a {
        assert forall|k: int| 0 <= k < 1 implies #[trigger] term_selects(ts1[k], items, ix, x) by {}
    }
    if query_selects(q1, items, ix, x) {
        assert(term_selects(ts1[0], items, ix, x));
    }
    if b {
        assert forall|k: int| 0 <= k < 1 implies #[trigger] term_selects(ts2[k], items, ix, x) by {}
    }
    if query_selects(q2, items, ix, x) {
        assert(term_selects(ts2[0], items, ix, x));
    }
    assert(query_selects(q1, items, ix, x) == a);
    assert(query_selects(q2, items, ix, x) == b);
    let ts12 = seq![t1, t2];
    let ts21 = seq![t2, t1];
    if a && b {
        assert forall|k: int| 0 <= k < 2 implies #[trigger] term_selects(ts12[k], items, ix, x) by {}
        assert forall|k: int| 0 <= k < 2 implies #[trigger] term_selects(ts21[k], items, ix, x) by {}
    }
    if query_selects(q1 + " "@ + q2, items, ix, x) {
        assert(term_selects(ts12[0], items, ix, x));
        assert(term_selects(ts12[1], items, ix, x));
    }
    if query_selects(q2 + " "@ + q1, items, ix, x) {
        assert(term_selects(ts21[0], items, ix, x));
        assert(term_selects(ts21[1], items, ix, x));
    }
}

/// A non-empty text without whitespace is scanned as one open term.
proof fn lemma_split_no_whitespace(q: Seq<char>, n: int)
    requires
        forall|i: int| 0 <= i < q.len() ==> !char_is_whitespace(#[trigger] q[i]),
        0 <= n <= q.len(),
    ensures
        n == 0 ==> split_prefix(q, n) == (SplitState { terms: Seq::empty(), start: None, in_quotes: false }),
        n > 0 ==> split_prefix(q, n).terms == Seq::<Seq<char>>::empty() && split_prefix(q, n).start == Some(0int),
    decreases n,
{
    if n > 0 {
        lemma_split_no_whitespace(q, n - 1);
        assert(split_prefix(q, n) == split_step(q, split_prefix(q, n - 1), n - 1));
    }
}

/// A non-empty text without whitespace is a single term.
proof fn lemma_single_term(q: Seq<char>)
    requires
        q.len() > 0,
        forall|i: int| 0 <= i < q.len() ==> !char_is_whitespace(#[trigger] q[i]),
    ensures
        split_terms(q) == seq![q],
{
    lemma_split_no_whitespace(q, q.len() as int);
    assert(q.subrange(0, q.len() as int) =~= q);
}

/// The query `c:p`, for a classifier `c` of letters and a pattern without
/// whitespace, selects what its one term selects.
proof fn lemma_classifier_query(c: Seq<char>, p: Seq<char>, items: Seq<IndexedItem>, ix: SearchIndex, x: usize)
    requires
        forall|i: int| 0 <= i < c.len() ==> 'a' <= #[trigger] c[i] <= 'z',
        forall|i: int| 0 <= i < p.len() ==> !char_is_whitespace(#[trigger] p[i]),
    ensures
        query_selects(c + ":"@ + p, items, ix, x) == term_selects(term_for_value(Some(c), p), items, ix, x),
{
    reveal_strlit(":");
    reveal(char_is_whitespace);
    let q = c + ":"@ + p;
    let a = c.len() as int;
    assert(":"@ =~= seq![':']);
    assert forall|i: int| 0 <= i < q.len() implies !char_is_whitespace(#[trigger] q[i]) by {
        if i < a {
            assert(q[i] == c[i]);
        } else if i > a {
            assert(q[i] == p[i - a - 1]);
        }
    }
    lemma_single_term(q);
    assert forall|j: int| 0 <= j < a implies q[j] != ':' by {
        assert(q[j] == c[j]);
    }
    lemma_first_index_unique(q, ':', a);
    assert(q.subrange(0, a) =~= c);
    assert(q.subrange(a + 1, q.len() as int) =~= p);
    let t = term_for_value(Some(c), p);
    let ts = seq![t];
    assert(query_terms(q) =~= ts);
    if term_selects(t, items, ix, x) {
        assert forall|k: int| 0 <= k < 1 implies #[trigger] term_selects(ts[k], items, ix, x) by {}
    }
    if query_selects(q, items, ix, x) {
        assert(term_selects(ts[0], items, ix, x));
    }
}

/// The shortcut classifiers work over whole queries: for a pattern without
/// whitespace (plain or quoted), `i:p` and `abstract:p` select what `id:p`
/// selects, `t:p` what `type:p` does, and `c:p` what `category:p` does.
pub proof fn law_shortcut_queries(p: Seq<char>, items: Seq<IndexedItem>, ix: SearchIndex, x: usize)
    requires
        forall|i: int| 0 <= i < p.len() ==> !char_is_whitespace(#[trigger] p[i]),
    ensures
        query_selects("i:"@ + p, items, ix, x) == query_selects("id:"@ + p, items, ix, x),
        query_selects("abstract:"@ + p, items, ix, x) == query_selects("id:"@ + p, items, ix, x),
        query_selects("t:"@ + p, items, ix, x) == query_selects("type:"@ + p, items, ix, x),
        query_selects("c:"@ + p, items, ix, x) == query_selects("category:"@ + p, items, ix, x),
{
    reveal_strlit(":");
    reveal_strlit("i");
    reveal_strlit("id");
    reveal_strlit("abstract");
    reveal_strlit("t");
    reveal_strlit("type");
    reveal_strlit("c");
    reveal_strlit("category");
    reveal_strlit("i:");
    reveal_strlit("id:");
    reveal_strlit("abstract:");
    reveal_strlit("t:");
    reveal_strlit("type:");
    reveal_strlit("c:");
    reveal_strlit("category:");
    assert("i:"@ =~= "i"@ + ":"@);
    assert("id:"@ =~= "id"@ + ":"@);
    assert("abstract:"@ =~= "abstract"@ + ":"@);
    assert("t:"@ =~= "t"@ + ":"@);
    assert("type:"@ =~= "type"@ + ":"@);
    assert("c:"@ =~= "c"@ + ":"@);
    assert("category:"@ =~= "category"@ + ":"@);
    lemma_classifier_query("i"@, p, items, ix, x);
    lemma_classifier_query("id"@, p, items, ix, x);
    lemma_classifier_query("abstract"@, p, items, ix, x);
    lemma_classifier_query("t"@, p, items, ix, x);
    lemma_classifier_query("type"@, p, items, ix, x);
    lemma_classifier_query("c"@, p, items, ix, x);
    lemma_classifier_query("category"@, p, items, ix, x);
    let v = term_for_value(Some("id"@), p);
    law_shortcut_classifiers(v.pattern, v.exact, items, ix, x);
}

/// A character in capitals (`up`) or in small letters.
pub open spec fn case_char(c: char, up: bool) -> char {
    if up {
        ascii_upper_char(c)
    } else {
        ascii_lower_char(c)
    }
}

/// A text in capitals (`up`) or in small letters.
pub open spec fn case_text(s: Seq<char>, up: bool) -> Seq<char> {
    if up {
        ascii_upper(s)
    } else {
        ascii_lower(s)
    }
}

/// A plain ASCII character: no colon and no apostrophe.
pub open spec fn plain_ascii(c: char) -> bool {
    c < '\u{80}' && c != ':' && c != '\''
}

proof fn lemma_case_text(s: Seq<char>, up: bool)
    ensures
        case_text(s, up).len() == s.len(),
        forall|i: int| 0 <= i < s.len() ==> #[trigger] case_text(s, up)[i] == case_char(s[i], up),
{
}

/// Changing case keeps a character plain, keeps it ASCII and keeps whether
/// it is whitespace.
proof fn lemma_case_char(c: char, up: bool)
    ensures
        plain_ascii(c) ==> plain_ascii(case_char(c, up)),
        char_is_whitespace(case_char(c, up)) == char_is_whitespace(c),
{
    reveal(char_is_whitespace);
    if 'a' <= c && c <= 'z' {
        assert('A' <= ((c as u32) - 32) as char <= 'Z');
    }
    if 'A' <= c && c <= 'Z' {
        assert('a' <= ((c as u32) + 32) as char <= 'z');
    }
}

proof fn lemma_case_subrange(s: Seq<char>, up: bool, a: int, b: int)
    requires
        0 <= a <= b <= s.len(),
    ensures
        case_text(s, up).subrange(a, b) == case_text(s.subrange(a, b), up),
{
    lemma_case_text(s, up);
    lemma_case_text(s.subrange(a, b), up);
    assert(case_text(s, up).subrange(a, b) =~= case_text(s.subrange(a, b), up));
}

/// Every term is made of plain ASCII characters.
pub open spec fn plain_terms(ts: Seq<Seq<char>>) -> bool {
    forall|k: int, j: int| 0 <= k < ts.len() && 0 <= j < ts[k].len() ==> plain_ascii(#[trigger] ts[k][j])
}

/// The terms in capitals (`up`) or small letters.
pub open spec fn case_terms(ts: Seq<Seq<char>>, up: bool) -> Seq<Seq<char>> {
    ts.map_values(|t: Seq<char>| case_text(t, up))
}

/// Scanning a plain ASCII query in another case scans the same terms in
/// that case; no quoted segment ever opens.
proof fn lemma_split_case(q: Seq<char>, up: bool, n: int)
    requires
        forall|i: int| 0 <= i < q.len() ==> plain_ascii(#[trigger] q[i]),
        0 <= n <= q.len(),
    ensures
        !split_prefix(q, n).in_quotes,
        plain_terms(split_prefix(q, n).terms),
        split_prefix(q, n).start matches Some(ts) ==> 0 <= ts < n,
        split_prefix(case_text(q, up), n) == (SplitState {
            terms: case_terms(split_prefix(q, n).terms, up),
            start: split_prefix(q, n).start,
            in_quotes: false,
        }),
    decreases n,
{
    let cq = case_text(q, up);
    lemma_case_text(q, up);
    if n == 0 {
        assert(case_terms(Seq::<Seq<char>>::empty(), up) =~= Seq::<Seq<char>>::empty());
    } else {
        lemma_split_case(q, up, n - 1);
        let i = n - 1;
        let st = split_prefix(q, i);
        let cst = split_prefix(cq, i);
        assert(split_prefix(q, n) == split_step(q, st, i));
        assert(split_prefix(cq, n) == split_step(cq, cst, i));
        lemma_case_char(q[i], up);
        assert(cq[i] == case_char(q[i], up));
        if char_is_whitespace(q[i]) {
            match st.start {
                Some(ts) => {
                    lemma_case_subrange(q, up, ts, i);
                    let t = q.subrange(ts, i);
                    assert(case_terms(st.terms.push(t), up) =~= case_terms(st.terms, up).push(case_text(t, up)));
                    assert forall|k: int, j: int| 0 <= k < st.terms.push(t).len() && 0 <= j < st.terms.push(t)[k].len()
                        implies plain_ascii(#[trigger] st.terms.push(t)[k][j]) by {
                        if k < st.terms.len() {
                            assert(st.terms.push(t)[k] == st.terms[k]);
                        } else {
                            assert(t[j] == q[ts + j]);
                        }
                    }
                },
                None => {},
            }
        }
    }
}

/// The terms of a plain ASCII query in another case are its terms in that case.
proof fn lemma_terms_case(q: Seq<char>, up: bool)
    requires
        forall|i: int| 0 <= i < q.len() ==> plain_ascii(#[trigger] q[i]),
    ensures
        split_terms(case_text(q, up)) == case_terms(split_terms(q), up),
        plain_terms(split_terms(q)),
{
    let n = q.len() as int;
    lemma_split_case(q, up, n);
    lemma_case_text(q, up);
    let st = split_prefix(q, n);
    match st.start {
        Some(ts) => {
            lemma_case_subrange(q, up, ts, n);
            let t = q.subrange(ts, n);
            assert(case_terms(st.terms.push(t), up) =~= case_terms(st.terms, up).push(case_text(t, up)));
            assert forall|k: int, j: int| 0 <= k < st.terms.push(t).len() && 0 <= j < st.terms.push(t)[k].len()
                implies plain_ascii(#[trigger] st.terms.push(t)[k][j]) by {
                if k < st.terms.len() {
                    assert(st.terms.push(t)[k] == st.terms[k]);
                } else {
                    assert(t[j] == q[ts + j]);
                }
            }
        },
        None => {},
    }
}

/// A plain ASCII term, in either case, is a word search that selects the
/// same items.
proof fn lemma_plain_term_case(t: Seq<char>, up: bool, items: Seq<IndexedItem>, ix: SearchIndex, x: usize)
    requires
        forall|j: int| 0 <= j < t.len() ==> plain_ascii(#[trigger] t[j]),
    ensures
        term_selects(parse_term_spec(case_text(t, up)), items, ix, x) == term_selects(parse_term_spec(t), items, ix, x),
{
    let ct = case_text(t, up);
    lemma_case_text(t, up);
    assert forall|j: int| 0 <= j < ct.len() implies plain_ascii(#[trigger] ct[j]) by {
        lemma_case_char(t[j], up);
    }
    assert forall|j: int| 0 <= j < t.len() implies t[j] != ':' by {}
    assert forall|j: int| 0 <= j < ct.len() implies ct[j] != ':' by {}
    lemma_first_index_unique(t, ':', t.len() as int);
    lemma_first_index_unique(ct, ':', ct.len() as int);
    assert(is_ascii_text(t));
    lemma_ascii_case_folds(t);
    if t.len() >= 2 {
        assert(t[0] != '\'');
        assert(ct[0] != '\'');
    }
}

/// Search ignores the case of ASCII queries: a query of plain terms (ASCII,
/// without colons or apostrophes) selects the same items in capitals, in
/// small letters and as written.
pub proof fn law_ascii_queries_ignore_case(q: Seq<char>, items: Seq<IndexedItem>, ix: SearchIndex, x: usize)
    requires
        forall|i: int| 0 <= i < q.len() ==> plain_ascii(#[trigger] q[i]),
    ensures
        query_selects(ascii_upper(q), items, ix, x) == query_selects(q, items, ix, x),
        query_selects(ascii_lower(q), items, ix, x) == query_selects(q, items, ix, x),
{
    lemma_query_case(q, true, items, ix, x);
    lemma_query_case(q, false, items, ix, x);
}

proof fn lemma_query_case(q: Seq<char>, up: bool, items: Seq<IndexedItem>, ix: SearchIndex, x: usize)
    requires
        forall|i: int| 0 <= i < q.len() ==> plain_ascii(#[trigger] q[i]),
    ensures
        query_selects(case_text(q, up), items, ix, x) == query_selects(q, items, ix, x),
{
    lemma_terms_case(q, up);
    lemma_case_text(q, up);
    let ts = query_terms(q);
    let cts = query_terms(case_text(q, up));
    let raw = split_terms(q);
    assert(cts.len() == ts.len());
    assert forall|k: int| 0 <= k < ts.len() implies #[trigger] term_selects(cts[k], items, ix, x) == term_selects(
        ts[k],
        items,
        ix,
        x,
    ) by {
        assert(case_terms(raw, up)[k] == case_text(raw[k], up));
        assert forall|j: int| 0 <= j < raw[k].len() implies plain_ascii(#[trigger] raw[k][j]) by {}
        lemma_plain_term_case(raw[k], up, items, ix, x);
    }
    if query_selects(q, items, ix, x) && q.len() > 0 {
        assert forall|k: int| 0 <= k < cts.len() implies #[trigger] term_selects(cts[k], items, ix, x) by {
            assert(term_selects(ts[k], items, ix, x));
        }
    }
    if query_selects(case_text(q, up), items, ix, x) && q.len() > 0 {
        assert forall|k: int| 0 <= k < ts.len() implies #[trigger] term_selects(ts[k], items, ix, x) by {
            assert(term_selects(cts[k], items, ix, x));
        }
    }
}

/// The indices below `k` that the query selects, in increasing order.
pub open spec fn selected_below(q: Seq<char>, items: Seq<IndexedItem>, ix: SearchIndex, k: nat) -> Seq<usize>
    decreases k,
{
    if k == 0 {
        Seq::empty()
    } else {
        let r = selected_below(q, items, ix, (k - 1) as nat);
        if query_selects(q, items, ix, (k - 1) as usize) {
            r.push((k - 1) as usize)
        } else {
            r
        }
    }
}

proof fn lemma_selected_below(q: Seq<char>, items: Seq<IndexedItem>, ix: SearchIndex, k: nat)
    requires
        k <= usize::MAX,
    ensures
        strictly_sorted(selected_below(q, items, ix, k)),
        forall|i: int| 0 <= i < selected_below(q, items, ix, k).len() ==> #[trigger] selected_below(q, items, ix, k)[i] < k,
        forall|x: usize| selected_below(q, items, ix, k).contains(x) <==> (x < k && query_selects(q, items, ix, x)),
    decreases k,
{
    if k > 0 {
        let r = selected_below(q, items, ix, (k - 1) as nat);
        lemma_selected_below(q, items, ix, (k - 1) as nat);
        let y = (k - 1) as usize;
        if query_selects(q, items, ix, y) {
            let s2 = r.push(y);
            assert forall|x: usize| s2.contains(x) <==> (x < k && query_selects(q, items, ix, x)) by {
                if s2.contains(x) {
                    let i = choose|i: int| 0 <= i < s2.len() && s2[i] == x;
                    if i < r.len() {
                        assert(r.contains(x));
                    }
                }
                if x < k && query_selects(q, items, ix, x) {
                    if x == y {
                        assert(s2[r.len() as int] == x);
                    } else {
                        assert(r.contains(x));
                        let i = choose|i: int| 0 <= i < r.len() && r[i] == x;
                        assert(s2[i] == x);
                    }
                }
            }
        }
    }
}

/// With an index built from the items, `matching` (what `find_matches`
/// returns) lists exactly the selected items, in increasing order.
pub proof fn lemma_matching_exact(q: Seq<char>, items: Seq<IndexedItem>, ix: SearchIndex)
    requires
        indexes(ix, items, items.len() as int),
        items.len() <= usize::MAX,
    ensures
        strictly_sorted(matching(q, items, ix)),
        forall|x: usize| matching(q, items, ix).contains(x) <==> query_selects(q, items, ix, x),
{
    let r = selected_below(q, items, ix, items.len());
    lemma_selected_below(q, items, ix, items.len());
    assert forall|x: usize| r.contains(x) <==> query_selects(q, items, ix, x) by {
        if query_selects(q, items, ix, x) {
            lemma_selects_in_range(q, items, ix, x);
        }
    }
    lemma_matching(q, items, ix, r);
}

/// Queries that select the same items give the same results.
proof fn lemma_same_matching(q1: Seq<char>, q2: Seq<char>, items: Seq<IndexedItem>, ix: SearchIndex)
    requires
        indexes(ix, items, items.len() as int),
        items.len() <= usize::MAX,
        forall|x: usize| query_selects(q1, items, ix, x) == query_selects(q2, items, ix, x),
    ensures
        matching(q1, items, ix) == matching(q2, items, ix),
{
    lemma_matching_exact(q1, items, ix);
    lemma_matching(q2, items, ix, matching(q1, items, ix));
}

/// AND over whole queries: with an index built from the items, the search
/// for two queries joined by a space returns exactly the items both
/// searches return, and the same in either order (where each query is one
/// term and the joined texts split into those two terms).
pub proof fn law_find_joined_queries(q1: Seq<char>, q2: Seq<char>, items: Seq<IndexedItem>, ix: SearchIndex)
    requires
        indexes(ix, items, items.len() as int),
        items.len() <= usize::MAX,
        split_terms(q1) == seq![q1],
        split_terms(q2) == seq![q2],
        split_terms(q1 + " "@ + q2) == seq![q1, q2],
        split_terms(q2 + " "@ + q1) == seq![q2, q1],
    ensures
        forall|x: usize| #[trigger] matching(q1 + " "@ + q2, items, ix).contains(x) <==> (matching(q1, items, ix).contains(x)
            && matching(q2, items, ix).contains(x)),
        matching(q1 + " "@ + q2, items, ix) == matching(q2 + " "@ + q1, items, ix),
{
    lemma_matching_exact(q1, items, ix);
    lemma_matching_exact(q2, items, ix);
    lemma_matching_exact(q1 + " "@ + q2, items, ix);
    assert forall|x: usize| #[trigger] matching(q1 + " "@ + q2, items, ix).contains(x) <==> (matching(q1, items, ix).contains(x)
        && matching(q2, items, ix).contains(x)) by {
        law_joined_queries_select_both(q1, q2, items, ix, x);
    }
    assert forall|x: usize| query_selects(q1 + " "@ + q2, items, ix, x) == query_selects(q2 + " "@ + q1, items, ix, x) by {
        law_joined_queries_select_both(q1, q2, items, ix, x);
    }
    lemma_same_matching(q1 + " "@ + q2, q2 + " "@ + q1, items, ix);
}

/// Shortcuts over whole searches: with an index built from the items and a
/// pattern without whitespace, `i:p` and `abstract:p` return what `id:p`
/// returns, `t:p` what `type:p` does, and `c:p` what `category:p` does.
pub proof fn law_find_shortcut_queries(p: Seq<char>, items: Seq<IndexedItem>, ix: SearchIndex)
    requires
        indexes(ix, items, items.len() as int),
        items.len() <= usize::MAX,
        forall|i: int| 0 <= i < p.len() ==> !char_is_whitespace(#[trigger] p[i]),
    ensures
        matching("i:"@ + p, items, ix) == matching("id:"@ + p, items, ix),
        matching("abstract:"@ + p, items, ix) == matching("id:"@ + p, items, ix),
        matching("t:"@ + p, items, ix) == matching("type:"@ + p, items, ix),
        matching("c:"@ + p, items, ix) == matching("category:"@ + p, items, ix),
{
    assert forall|x: usize| #[trigger] query_selects("i:"@ + p, items, ix, x) == query_selects("id:"@ + p, items, ix, x) by {
        law_shortcut_queries(p, items, ix, x);
    }
    assert forall|x: usize| #[trigger] query_selects("abstract:"@ + p, items, ix, x) == query_selects("id:"@ + p, items, ix, x) by {
        law_shortcut_queries(p, items, ix, x);
    }
    assert forall|x: usize| #[trigger] query_selects("t:"@ + p, items, ix, x) == query_selects("type:"@ + p, items, ix, x) by {
        law_shortcut_queries(p, items, ix, x);
    }
    assert forall|x: usize| #[trigger] query_selects("c:"@ + p, items, ix, x) == query_selects("category:"@ + p, items, ix, x) by {
        law_shortcut_queries(p, items, ix, x);
    }
    lemma_same_matching("i:"@ + p, "id:"@ + p, items, ix);
    lemma_same_matching("abstract:"@ + p, "id:"@ + p, items, ix);
    lemma_same_matching("t:"@ + p, "type:"@ + p, items, ix);
    lemma_same_matching("c:"@ + p, "category:"@ + p, items, ix);
}

/// Case over whole searches: with an index built from the items, a query of
/// plain ASCII terms (no colons, no apostrophes) returns the same items in
/// capitals, in small letters and as written.
pub proof fn law_find_ascii_case(q: Seq<char>, items: Seq<IndexedItem>, ix: SearchIndex)
    requires
        indexes(ix, items, items.len() as int),
        items.len() <= usize::MAX,
        forall|i: int| 0 <= i < q.len() ==> plain_ascii(#[trigger] q[i]),
    ensures
        matching(ascii_upper(q), items, ix) == matching(q, items, ix),
        matching(ascii_lower(q), items, ix) == matching(q, items, ix),
{
    assert forall|x: usize| #![trigger query_selects(q, items, ix, x)]
        query_selects(ascii_upper(q), items, ix, x) == query_selects(q, items, ix, x)
        && query_selects(ascii_lower(q), items, ix, x) == query_selects(q, items, ix, x) by {
        law_ascii_queries_ignore_case(q, items, ix, x);
    }
    lemma_same_matching(ascii_upper(q), q, items, ix);
    lemma_same_matching(ascii_lower(q), q, items, ix);
}

/// `search_words` narrows as the pattern grows: an item it returns for a
/// pattern whose lowercase form contains another's, it returns for the
/// other too.
pub proof fn law_search_words_narrows(ix: SearchIndex, p1: Seq<char>, p2: Seq<char>, x: usize)
    requires
        has_infix(lowercase(p2), lowercase(p1)),
    ensures
        listed_under_infix(ix.word_index.view(), lowercase(p2), x) ==> listed_under_infix(ix.word_index.view(), lowercase(p1), x),
{
    let m = ix.word_index.view();
    if listed_under_infix(m, lowercase(p2), x) {
        let k = choose|k: Seq<char>| #[trigger] listed(m, k, x) && has_infix(k, lowercase(p2));
        lemma_infix_trans(k, lowercase(p2), lowercase(p1));
        assert(listed(m, k, x) && has_infix(k, lowercase(p1)));
    }
}

/// `search_words` with the empty pattern returns every item the word index
/// lists under any word: the union of all its lists.
pub proof fn law_search_words_empty(ix: SearchIndex, x: usize)
    ensures
        listed_under_infix(ix.word_index.view(), lowercase(Seq::empty()), x) <==> exists|k: Seq<char>| #[trigger] listed(ix.word_index.view(), k, x),
{
    reveal(lowercase);
    assert(ascii_lower(Seq::<char>::empty()) =~= Seq::<char>::empty());
    let m = ix.word_index.view();
    if exists|k: Seq<char>| #[trigger] listed(m, k, x) {
        let k = choose|k: Seq<char>| #[trigger] listed(m, k, x);
        assert(k.subrange(0int, 0int + Seq::<char>::empty().len()) =~= Seq::<char>::empty());
        assert(listed(m, k, x) && has_infix(k, Seq::<char>::empty()));
    }
}

/// The identifiers of the value spans of a line, in order.
pub open spec fn span_ids(spans: Seq<SpanSpec>) -> Seq<nat>
    decreases spans.len(),
{
    if spans.len() == 0 {
        Seq::empty()
    } else {
        span_ids(spans.drop_last()) + match spans.last().span_id {
            Some(i) => seq![i],
            None => Seq::empty(),
        }
    }
}

/// The identifiers of the value spans of a document, line after line.
pub open spec fn document_ids(lines: Seq<Seq<SpanSpec>>) -> Seq<nat>
    decreases lines.len(),
{
    if lines.len() == 0 {
        Seq::empty()
    } else {
        span_ids(lines[0]) + document_ids(lines.drop_first())
    }
}

/// `ids` counts up by one from `a` to just below `b`.
pub open spec fn counts_up(ids: Seq<nat>, a: nat, b: nat) -> bool {
    &&& a + ids.len() == b
    &&& forall|i: int| 0 <= i < ids.len() ==> #[trigger] ids[i] == a + i
}

proof fn lemma_counts_join(x: Seq<nat>, y: Seq<nat>, a: nat, b: nat, c: nat)
    requires
        counts_up(x, a, b),
        counts_up(y, b, c),
    ensures
        counts_up(x + y, a, c),
{
    assert forall|i: int| 0 <= i < (x + y).len() implies #[trigger] (x + y)[i] == a + i by {
        if i >= x.len() {
            assert((x + y)[i] == y[i - x.len()]);
        }
    }
}

proof fn lemma_span_ids_append(a: Seq<SpanSpec>, b: Seq<SpanSpec>)
    ensures
        span_ids(a + b) == span_ids(a) + span_ids(b),
    decreases b.len(),
{
    if b.len() == 0 {
        assert(a + b =~= a);
        assert(span_ids(a) + span_ids(b) =~= span_ids(a));
    } else {
        lemma_span_ids_append(a, b.drop_last());
        assert((a + b).drop_last() =~= a + b.drop_last());
        assert((a + b).last() == b.last());
        assert(span_ids(a + b) =~= span_ids(a) + span_ids(b));
    }
}

proof fn lemma_span_ids_single(sp: SpanSpec)
    ensures
        span_ids(seq![sp]) == (match sp.span_id {
            Some(i) => seq![i],
            None => Seq::<nat>::empty(),
        }),
{
    assert(seq![sp].drop_last() =~= Seq::<SpanSpec>::empty());
    assert(seq![sp].last() == sp);
    assert(span_ids(Seq::<SpanSpec>::empty()) == Seq::<nat>::empty());
    assert(span_ids(seq![sp]) =~= (match sp.span_id {
        Some(i) => seq![i],
        None => Seq::<nat>::empty(),
    }));
}

/// A span numbered `st.next_id` (and the state moved on), or an unnumbered
/// span (and the numbering untouched): either way the numbering counts up.
proof fn lemma_one_span(sp: SpanSpec, a: nat, b: nat)
    requires
        (sp.span_id == Some(a) && b == a + 1) || (sp.span_id is None && b == a),
    ensures
        counts_up(span_ids(seq![sp]), a, b),
{
    lemma_span_ids_single(sp);
}

proof fn lemma_unquoted_numbering(cs: Seq<char>, pos: int, hi: int, style: JsonStyle, st: ParserSpec)
    ensures
        counts_up(span_ids(unquoted_spans(cs, pos, hi, style, st).0), st.next_id, unquoted_spans(cs, pos, hi, style, st).1.next_id),
    decreases hi - pos,
{
    if pos >= hi {
        assert(span_ids(Seq::<SpanSpec>::empty()) == Seq::<nat>::empty());
    } else {
        let t = skip_ws(cs, pos, hi);
        lemma_skip_ws_bounds(cs, pos, hi);
        let ws: Seq<SpanSpec> = if t > pos {
            seq![crate::highlight::span(cs.subrange(pos, t), crate::theme::plain_style(), crate::highlight::JsonSpanKind::Whitespace, None, None)]
        } else {
            Seq::empty()
        };
        if t > pos {
            lemma_one_span(ws[0], st.next_id, st.next_id);
            assert(ws =~= seq![ws[0]]);
        } else {
            assert(span_ids(ws) == Seq::<nat>::empty());
        }
        if t < hi {
            let e = token_end(cs, t, hi);
            lemma_next_break_bounds(cs, t, hi);
            let (sp, st2) = token_step(cs.subrange(t, e), style, st);
            lemma_one_span(sp, st.next_id, st2.next_id);
            let (rest, st3) = unquoted_spans(cs, e, hi, style, st2);
            lemma_unquoted_numbering(cs, e, hi, style, st2);
            lemma_span_ids_append(ws, seq![sp]);
            lemma_span_ids_append(ws + seq![sp], rest);
            lemma_counts_join(span_ids(ws), span_ids(seq![sp]), st.next_id, st.next_id, st2.next_id);
            lemma_counts_join(span_ids(ws + seq![sp]), span_ids(rest), st.next_id, st2.next_id, st3.next_id);
        }
    }
}

proof fn lemma_line_numbering(cs: Seq<char>, pos: int, style: JsonStyle, st: ParserSpec)
    requires
        0 <= pos,
    ensures
        counts_up(span_ids(line_spans(cs, pos, style, st).0), st.next_id, line_spans(cs, pos, style, st).1.next_id),
    decreases cs.len() - pos,
{
    if pos >= cs.len() {
        assert(span_ids(Seq::<SpanSpec>::empty()) == Seq::<nat>::empty());
    } else {
        let q = next_quote(cs, pos);
        lemma_first_index(cs.subrange(pos, cs.len() as int), '"');
        if q >= cs.len() || q < pos {
            lemma_unquoted_numbering(cs, pos, cs.len() as int, style, st);
        } else if escaped_after(cs, pos, q) {
            let (all, _) = line_spans(cs, pos, style, st);
            let sp = all[0];
            let b = crate::highlight::bumped(st);
            let (rest, st2) = line_spans(cs, q + 1, style, b);
            lemma_line_numbering(cs, q + 1, style, b);
            assert(all == seq![sp] + rest);
            lemma_one_span(sp, st.next_id, b.next_id);
            lemma_span_ids_append(seq![sp], rest);
            lemma_counts_join(span_ids(seq![sp]), span_ids(rest), st.next_id, b.next_id, st2.next_id);
        } else {
            let (pre, st1) = unquoted_spans(cs, pos, q, style, st);
            lemma_unquoted_numbering(cs, pos, q, style, st);
            lemma_closing_quote_after(cs, q + 1, q + 1);
            let (all, fin) = line_spans(cs, pos, style, st);
            match closing_quote(cs, q + 1, q + 1) {
                Some(ep) => {
                    let quoted = cs.subrange(q + 1, ep);
                    let st2 = if colon_follows(cs, ep + 1) { with_key_state(st1, quoted) } else { crate::highlight::bumped(st1) };
                    let (rest, st3) = line_spans(cs, ep + 1, style, st2);
                    lemma_line_numbering(cs, ep + 1, style, st2);
                    let sp = all[pre.len() as int];
                    assert(all == pre + seq![sp] + rest);
                    lemma_one_span(sp, st1.next_id, st2.next_id);
                    lemma_span_ids_append(pre, seq![sp]);
                    lemma_span_ids_append(pre + seq![sp], rest);
                    lemma_counts_join(span_ids(pre), span_ids(seq![sp]), st.next_id, st1.next_id, st2.next_id);
                    lemma_counts_join(span_ids(pre + seq![sp]), span_ids(rest), st.next_id, st2.next_id, st3.next_id);
                },
                None => {
                    let sp = all[pre.len() as int];
                    assert(all == pre + seq![sp]);
                    lemma_one_span(sp, st1.next_id, fin.next_id);
                    lemma_span_ids_append(pre, seq![sp]);
                    lemma_counts_join(span_ids(pre), span_ids(seq![sp]), st.next_id, st1.next_id, fin.next_id);
                },
            }
        }
    }
}

spec fn with_key_state(st: ParserSpec, key: Seq<char>) -> ParserSpec {
    crate::highlight::with_key(st, key)
}

proof fn lemma_document_numbering(lines: Seq<Seq<char>>, style: JsonStyle, st: ParserSpec)
    ensures
        forall|i: int| 0 <= i < document_ids(document_spans(lines, style, st)).len()
            ==> #[trigger] document_ids(document_spans(lines, style, st))[i] == st.next_id + i,
    decreases lines.len(),
{
    if lines.len() > 0 {
        let (l, st2) = line_spans(lines[0], 0, style, st);
        lemma_line_numbering(lines[0], 0, style, st);
        lemma_document_numbering(lines.drop_first(), style, st2);
        let rest = document_spans(lines.drop_first(), style, st2);
        let d = document_spans(lines, style, st);
        assert(d == seq![l] + rest);
        assert(d[0] == l);
        assert(d.drop_first() =~= rest);
        let ids = document_ids(d);
        assert(ids == span_ids(l) + document_ids(rest));
        assert forall|i: int| 0 <= i < ids.len() implies #[trigger] ids[i] == st.next_id + i by {
            if i >= span_ids(l).len() {
                assert(ids[i] == document_ids(rest)[i - span_ids(l).len()]);
            }
        }
    }
}

/// Highlighting numbers the value spans (strings, numbers, literals) 1, 2,
/// 3, ... in the order they stand in the text, across lines; keys,
/// punctuation and whitespace carry no number.
pub proof fn law_value_spans_numbered_in_order(json: Seq<char>, style: JsonStyle)
    ensures
        forall|i: int| 0 <= i < document_ids(highlighted(json, style)).len()
            ==> #[trigger] document_ids(highlighted(json, style))[i] == i + 1,
{
    lemma_document_numbering(text_lines(json), style, initial_parser());
}

/// `p` occurs somewhere in `t`.
pub open spec fn occurs_in(p: Seq<char>, t: Seq<char>) -> bool {
    exists|i: int| 0 <= i && i + p.len() <= t.len() && #[trigger] t.subrange(i, i + p.len()) == p
}

/// A scalar value matches a pattern by its text: `true` or `false` for a
/// boolean, `null` for null, the digits for a number, the text for a string
/// (lowercased for a non-exact pattern). A non-exact pattern matches when it
/// occurs in that text, an exact one when it is that text.
pub proof fn law_scalar_values_match_by_text(p: Seq<char>, b: bool, n: String, s: String)
    ensures
        value_matches(JsonValue::Bool(b), p, false) == occurs_in(
            p,
            if b { seq!['t', 'r', 'u', 'e'] } else { seq!['f', 'a', 'l', 's', 'e'] },
        ),
        value_matches(JsonValue::Bool(b), p, true) == (p == if b {
            seq!['t', 'r', 'u', 'e']
        } else {
            seq!['f', 'a', 'l', 's', 'e']
        }),
        value_matches(JsonValue::Null, p, false) == occurs_in(p, seq!['n', 'u', 'l', 'l']),
        value_matches(JsonValue::Null, p, true) == (p == seq!['n', 'u', 'l', 'l']),
        value_matches(JsonValue::Number(n), p, false) == occurs_in(p, n@),
        value_matches(JsonValue::Number(n), p, true) == (p == n@),
        value_matches(JsonValue::Str(s), p, false) == occurs_in(p, lowercase(s@)),
        value_matches(JsonValue::Str(s), p, true) == (p == s@),
{
    let t = if b { seq!['t', 'r', 'u', 'e'] } else { seq!['f', 'a', 'l', 's', 'e'] };
    lemma_occurs_is_infix(p, t);
    lemma_occurs_is_infix(p, seq!['n', 'u', 'l', 'l']);
    lemma_occurs_is_infix(p, n@);
    lemma_occurs_is_infix(p, lowercase(s@));
}

proof fn lemma_occurs_is_infix(p: Seq<char>, t: Seq<char>)
    ensures
        occurs_in(p, t) == has_infix(t, p),
{
    if occurs_in(p, t) {
        let i = choose|i: int| 0 <= i && i + p.len() <= t.len() && #[trigger] t.subrange(i, i + p.len()) == p;
        assert(0 <= i <= t.len() - p.len() && t.subrange(i, i + p.len()) == p);
    }
    if has_infix(t, p) {
        let i = choose|i: int| 0 <= i <= t.len() - p.len() && #[trigger] t.subrange(i, i + p.len()) == p;
        assert(0 <= i && i + p.len() <= t.len() && t.subrange(i, i + p.len()) == p);
    }
}

/// Every piece of a boolean's text (`true` or `false`) finds it with a
/// non-exact pattern: `tru`, `rue`, `true`, `als`, the empty pattern...
pub proof fn law_bool_found_by_its_text(b: bool, i: int, j: int)
    requires
        0 <= i <= j <= (if b { 4int } else { 5int }),
    ensures
        value_matches(
            JsonValue::Bool(b),
            (if b { seq!['t', 'r', 'u', 'e'] } else { seq!['f', 'a', 'l', 's', 'e'] }).subrange(i, j),
            false,
        ),
{
    let t = if b { seq!['t', 'r', 'u', 'e'] } else { seq!['f', 'a', 'l', 's', 'e'] };
    let p = t.subrange(i, j);
    lemma_occurs_is_infix(p, t);
    assert(t.subrange(i, i + p.len()) == p);
}

/// A field path of one key (no dot) looks at the member of that name: the
/// path matches exactly when the member's value does, and never when there
/// is no such member.
pub proof fn law_one_key_path_reads_member(v: JsonValue, k: Seq<char>, p: Seq<char>, exact: bool)
    requires
        v is Object,
        forall|i: int| 0 <= i < k.len() ==> k[i] != '.',
    ensures
        field_matches_at(v, split_on(k, '.'), 0, p, exact) == match v.spec_get(k) {
            Some(x) => value_matches(x, p, exact),
            None => false,
        },
{
    lemma_first_index(k, '.');
    assert(split_on(k, '.') == seq![k]);
}

/// A term with a field-path classifier of one key (not one of the index
/// shortcuts) selects an item exactly when that member of the item matches
/// the pattern (lowercased unless the term is exact); an item without the
/// member is not selected.
pub proof fn law_field_term_reads_member(t: TermSpec, items: Seq<IndexedItem>, ix: SearchIndex, x: usize, c: Seq<char>)
    requires
        t.classifier == Some(c),
        c != "id"@ && c != "abstract"@ && c != "i"@ && c != "type"@ && c != "t"@ && c != "category"@ && c != "c"@,
        forall|i: int| 0 <= i < c.len() ==> c[i] != '.',
        x < items.len(),
        items[x as int].value is Object,
    ensures
        term_selects(t, items, ix, x) == match items[x as int].value.spec_get(c) {
            Some(v) => value_matches(v, normalized_pattern(t.pattern, t.exact), t.exact),
            None => false,
        },
{
    law_one_key_path_reads_member(items[x as int].value, c, normalized_pattern(t.pattern, t.exact), t.exact);
}

/// The name an item is listed under. An id wins; then an abstract, as
/// `(abs) ` and the abstract. Without those (and without a name), a recipe
/// with a non-empty result is `result: ` and the result, followed by
/// ` (suffix: `, the suffix and `)` when it has a non-empty id suffix; an
/// uncraft with a non-empty result is `result: ` and the result; a
/// profession item substitution is `trait: ` and its non-empty trait, or
/// else `item: ` and its non-empty item.
pub proof fn law_display_name_sources(json: JsonValue, id: Seq<char>, type_: Seq<char>, r: Seq<char>, sfx: Seq<char>)
    ensures
        id.len() > 0 ==> spec_display_name(json, id, type_) == id,
        id.len() == 0 && json.spec_get_str("abstract"@) == Some(r) ==> spec_display_name(json, id, type_)
            == "(abs) "@ + r,
        ({
            &&& id.len() == 0
            &&& json.spec_get_str("abstract"@) is None
            &&& json.spec_get("name"@) is None
            &&& type_ == "recipe"@
            &&& json.spec_get_str("result"@) == Some(r)
            &&& r.len() > 0
            &&& (json.spec_get_str("id_suffix"@) is None || json.spec_get_str("id_suffix"@) == Some(Seq::<char>::empty()))
        }) ==> spec_display_name(json, id, type_) == "result: "@ + r,
        ({
            &&& id.len() == 0
            &&& json.spec_get_str("abstract"@) is None
            &&& json.spec_get("name"@) is None
            &&& type_ == "recipe"@
            &&& json.spec_get_str("result"@) == Some(r)
            &&& r.len() > 0
            &&& json.spec_get_str("id_suffix"@) == Some(sfx)
            &&& sfx.len() > 0
        }) ==> spec_display_name(json, id, type_) == "result: "@ + r + " (suffix: "@ + sfx + ")"@,
        ({
            &&& id.len() == 0
            &&& json.spec_get_str("abstract"@) is None
            &&& json.spec_get("name"@) is None
            &&& type_ == "uncraft"@
            &&& json.spec_get_str("result"@) == Some(r)
            &&& r.len() > 0
        }) ==> spec_display_name(json, id, type_) == "result: "@ + r,
        ({
            &&& id.len() == 0
            &&& json.spec_get_str("abstract"@) is None
            &&& json.spec_get("name"@) is None
            &&& type_ == "profession_item_substitutions"@
            &&& json.spec_get_str("trait"@) == Some(r)
            &&& r.len() > 0
        }) ==> spec_display_name(json, id, type_) == "trait: "@ + r,
        ({
            &&& id.len() == 0
            &&& json.spec_get_str("abstract"@) is None
            &&& json.spec_get("name"@) is None
            &&& type_ == "profession_item_substitutions"@
            &&& (json.spec_get_str("trait"@) is None || json.spec_get_str("trait"@) == Some(Seq::<char>::empty()))
            &&& json.spec_get_str("item"@) == Some(r)
            &&& r.len() > 0
        }) ==> spec_display_name(json, id, type_) == "item: "@ + r,
{
    reveal_strlit("profession_item_substitutions");
    reveal_strlit("recipe");
    reveal_strlit("uncraft");
    assert("recipe"@.len() == 6);
    assert("uncraft"@.len() == 7);
    assert("uncraft"@ != "recipe"@);
    assert("profession_item_substitutions"@.len() == 29);
    assert("profession_item_substitutions"@ != "recipe"@);
    assert("profession_item_substitutions"@ != "uncraft"@);
}

/// The line a page down leads to from `y`: a page further, less the line
/// kept in view, within `0..=u16::MAX`.
pub open spec fn details_page_down(y: int, page: int) -> int {
    let down = if y + page > 0xffff { 0xffff } else { y + page };
    if down < 1 { 0 } else { down - 1 }
}

/// The line a page up leads to from `y`: a page back, keeping one line in
/// view, and not above the top.
pub open spec fn details_page_up(y: int, page: int) -> int {
    let from = if y + 1 > 0xffff { 0xffff } else { y + 1 };
    if from < page { 0 } else { from - page }
}

/// With the details focused (no overlay open, navigation mode), the
/// navigation keys scroll the details and change nothing else: End to the
/// last line of the content (as far as possible before its size is known),
/// Home back to the top, Down and Up by one line.
pub proof fn law_details_keys_scroll(u: UiView, c: KeyCtx, e: AppKeyEvent)
    requires
        !e.is_release,
        !u.show_help,
        !u.show_version_picker,
        u.mode == InputMode::Normal,
        u.focus == FocusPane::Details,
    ensures
        e.code == AppKeyCode::End ==> key_ui(u, c, e).scroll.offset.y == match u.scroll.size {
            Some(sz) => if sz.height == 0 { 0 } else { sz.height - 1 },
            None => u16::MAX as int,
        },
        e.code == AppKeyCode::Home ==> key_ui(u, c, e).scroll.offset.y == 0 && key_ui(u, c, e).scroll.offset.x == 0,
        e.code == AppKeyCode::Down && !e.ctrl ==> key_ui(u, c, e).scroll.offset.y == if u.scroll.offset.y
            == u16::MAX { u16::MAX as int } else { u.scroll.offset.y + 1 },
        e.code == AppKeyCode::Up && !e.ctrl ==> key_ui(u, c, e).scroll.offset.y == if u.scroll.offset.y == 0 {
            0
        } else {
            u.scroll.offset.y - 1
        },
        e.code == AppKeyCode::PageDown ==> key_ui(u, c, e).scroll.offset.y == details_page_down(
            u.scroll.offset.y as int,
            match u.scroll.page_size { Some(ps) => ps.height as int, None => 1 },
        ),
        e.code == AppKeyCode::PageUp ==> key_ui(u, c, e).scroll.offset.y == details_page_up(
            u.scroll.offset.y as int,
            match u.scroll.page_size { Some(ps) => ps.height as int, None => 1 },
        ),
        (e.code == AppKeyCode::End || e.code == AppKeyCode::PageUp || e.code == AppKeyCode::PageDown
            || ((e.code == AppKeyCode::Up || e.code == AppKeyCode::Down) && !e.ctrl)) ==> {
            &&& key_ui(u, c, e).scroll.offset.x == u.scroll.offset.x
            &&& key_ui(u, c, e).scroll.size == u.scroll.size
            &&& key_ui(u, c, e).scroll.page_size == u.scroll.page_size
        },
        (e.code == AppKeyCode::End || e.code == AppKeyCode::Home || e.code == AppKeyCode::PageUp || e.code
            == AppKeyCode::PageDown || ((e.code == AppKeyCode::Up || e.code == AppKeyCode::Down) && !e.ctrl))
            ==> key_ui(u, c, e) == (UiView { scroll: key_ui(u, c, e).scroll, ..u }),
{
}

/// A plain click on a value keeps the filter: when the trimmed filter is
/// not empty, the new filter is that filter, a space, and the clicked term,
/// which begins with the value's path and `:`; a blank filter is replaced
/// by the clicked term. The cursor goes to the end and the filter pane
/// takes the focus. A Ctrl-click replaces the filter by an `i:` term and
/// focuses the details.
pub proof fn law_plain_click_extends_filter(
    u: UiView,
    app: &AppState,
    lines: Seq<Seq<SpanSpec>>,
    path: Seq<char>,
    id: usize,
)
    ensures
        trim(u.filter).len() > 0 ==> {
            let f = after_link_click(u, app, lines, false, Some((path, id))).filter;
            let n = trim(u.filter).len();
            &&& f.len() > n
            &&& f == trim(u.filter) + " "@ + f.skip(n + 1int)
            &&& has_path_term(f.skip(n + 1int), path)
        },
        trim(u.filter).len() == 0 ==> has_path_term(after_link_click(u, app, lines, false, Some((path, id))).filter, path),
        after_link_click(u, app, lines, false, Some((path, id))).cursor == after_link_click(u, app, lines, false, Some((path, id))).filter.len() as usize,
        after_link_click(u, app, lines, false, Some((path, id))).focus == FocusPane::Filter,
        has_path_term(after_link_click(u, app, lines, true, Some((path, id))).filter, seq!['i']),
        after_link_click(u, app, lines, true, Some((path, id))).focus == FocusPane::Details,
{
    let cur = trim(u.filter);
    let f = after_link_click(u, app, lines, false, Some((path, id))).filter;
    let clean = trim(id_text(lines, id as nat));
    let q = quoted_term(click_value(clean, json_string_literal(clean)));
    reveal_strlit(":");
    reveal_strlit(" ");
    let term = path + ":"@ + q;
    assert(f == link_filter(u, lines, false, path, id));
    assert(term.subrange(0, path.len() as int) =~= path);
    assert(term[path.len() as int] == ':');
    reveal_strlit("i:");
    let cf = after_link_click(u, app, lines, true, Some((path, id))).filter;
    assert(cf == "i:"@ + q);
    assert(cf.subrange(0, 1) =~= seq!['i']);
    assert(cf[1] == ':');
    if cur.len() > 0 {
        assert(f =~= cur + " "@ + term);
        assert(f.skip(cur.len() + 1int) =~= term);
    } else {
        assert(f =~= term);
    }
}

/// `t` begins with `path` and `:`.
pub open spec fn has_path_term(t: Seq<char>, path: Seq<char>) -> bool {
    t.len() > path.len() && t.subrange(0, path.len() as int) == path && t[path.len() as int] == ':'
}

/// Adding terms to a query never selects more: when the terms of `a b` are
/// those of `a` followed by those of `b`, and `a` is a query with terms,
/// every item `a b` selects, `a` selects too.
pub proof fn law_added_terms_narrow(a: Seq<char>, b: Seq<char>, items: Seq<IndexedItem>, ix: SearchIndex, x: usize)
    requires
        a.len() > 0,
        split_terms(a).len() > 0,
        split_terms(a + " "@ + b) == split_terms(a) + split_terms(b),
    ensures
        query_selects(a + " "@ + b, items, ix, x) ==> query_selects(a, items, ix, x),
{
    let ab = a + " "@ + b;
    assert(ab.len() > 0);
    if query_selects(ab, items, ix, x) {
        let ta = query_terms(a);
        let tab = query_terms(ab);
        assert forall|k: int| 0 <= k < ta.len() implies term_selects(#[trigger] ta[k], items, ix, x) by {
            assert(split_terms(ab)[k] == split_terms(a)[k]);
            assert(tab[k] == ta[k]);
        }
    }
}

/// A bare `true`, `false` or `null` is one value span: a boolean value in
/// the boolean color, with the key context of the current path and the next
/// value identifier, which it uses up.
pub proof fn law_literals_are_boolean_values(cs: Seq<char>, pos: int, hi: int, style: JsonStyle, st: ParserSpec)
    requires
        0 <= pos <= hi <= cs.len(),
        cs.subrange(pos, hi) == seq!['t', 'r', 'u', 'e'] || cs.subrange(pos, hi) == seq!['f', 'a', 'l', 's', 'e']
            || cs.subrange(pos, hi) == seq!['n', 'u', 'l', 'l'],
    ensures
        unquoted_spans(cs, pos, hi, style, st) == (
            seq![
                (SpanSpec {
                    content: cs.subrange(pos, hi),
                    style: (TextStyle { fg: Some(style.boolean), bg: None, bold: false }),
                    kind: JsonSpanKind::BooleanValue,
                    key_context: context_of(st.stack),
                    span_id: Some(st.next_id),
                }),
            ],
            (ParserSpec { stack: st.stack, next_id: st.next_id + 1 }),
        ),
{
    reveal(char_is_whitespace);
    reveal_strlit("true");
    reveal_strlit("false");
    reveal_strlit("null");
    let t = cs.subrange(pos, hi);
    assert(t.len() == hi - pos);
    assert(t.len() >= 4);
    assert(cs[pos] == t[0]);
    assert(skip_ws(cs, pos, hi) == pos);
    assert forall|i: int| pos <= i < hi implies !crate::highlight::is_token_break(#[trigger] cs[i]) by {
        assert(cs[i] == t[i - pos]);
    }
    lemma_no_break_until(cs, pos, hi);
    assert(token_end(cs, pos, hi) == hi);
    assert(cs.subrange(pos, hi) == t);
    assert("true"@ =~= seq!['t', 'r', 'u', 'e']);
    assert("false"@ =~= seq!['f', 'a', 'l', 's', 'e']);
    assert("null"@ =~= seq!['n', 'u', 'l', 'l']);
    assert(crate::highlight::is_literal_token(t));
    let (sp, st2) = token_step(t, style, st);
    assert(sp.kind == JsonSpanKind::BooleanValue);
    assert(st2 == crate::highlight::bumped(st));
    assert(unquoted_spans(cs, hi, hi, style, st2) == (Seq::<SpanSpec>::empty(), st2));
    let ws: Seq<SpanSpec> = Seq::empty();
    assert(unquoted_spans(cs, pos, hi, style, st) == (ws + seq![sp] + Seq::<SpanSpec>::empty(), st2));
    assert(seq![sp] + Seq::<SpanSpec>::empty() =~= seq![sp]);
    assert(Seq::<SpanSpec>::empty() + seq![sp] =~= seq![sp]);
}

proof fn lemma_no_break_until(cs: Seq<char>, pos: int, hi: int)
    requires
        0 <= pos <= hi <= cs.len(),
        forall|i: int| pos <= i < hi ==> !crate::highlight::is_token_break(#[trigger] cs[i]),
    ensures
        crate::highlight::next_break(cs, pos, hi) == hi,
    decreases hi - pos,
{
    if pos < hi {
        lemma_no_break_until(cs, pos + 1, hi);
    }
}

/// An array matches a pattern exactly when one of its elements does, and an
/// object exactly when one of its member values does.
pub proof fn law_containers_match_by_element(v: JsonValue, p: Seq<char>, exact: bool)
    ensures
        v matches JsonValue::Array(items) ==> (value_matches(v, p, exact) <==> exists|i: int|
            0 <= i < items@.len() && value_matches(#[trigger] items@[i], p, exact)),
        v matches JsonValue::Object(es) ==> (value_matches(v, p, exact) <==> exists|i: int|
            0 <= i < es@.len() && value_matches(#[trigger] es@[i].1, p, exact)),
{
    match v {
        JsonValue::Array(items) => lemma_any_value(items@, p, exact),
        JsonValue::Object(es) => lemma_any_member(es@, p, exact),
        _ => {},
    }
}

proof fn lemma_any_value(vs: Seq<JsonValue>, p: Seq<char>, exact: bool)
    ensures
        crate::matcher::any_value_matches(vs, p, exact) <==> exists|i: int| 0 <= i < vs.len() && value_matches(#[trigger] vs[i], p, exact),
    decreases vs.len(),
{
    if vs.len() > 0 {
        lemma_any_value(vs.drop_first(), p, exact);
        if exists|i: int| 0 <= i < vs.len() && value_matches(#[trigger] vs[i], p, exact) {
            let i = choose|i: int| 0 <= i < vs.len() && value_matches(#[trigger] vs[i], p, exact);
            if i > 0 {
                assert(vs.drop_first()[i - 1] == vs[i]);
            }
        }
        if exists|i: int| 0 <= i < vs.drop_first().len() && value_matches(#[trigger] vs.drop_first()[i], p, exact) {
            let i = choose|i: int| 0 <= i < vs.drop_first().len() && value_matches(#[trigger] vs.drop_first()[i], p, exact);
            assert(vs[i + 1] == vs.drop_first()[i]);
        }
    }
}

proof fn lemma_any_member(es: Seq<(String, JsonValue)>, p: Seq<char>, exact: bool)
    ensures
        crate::matcher::any_member_matches(es, p, exact) <==> exists|i: int| 0 <= i < es.len() && value_matches(#[trigger] es[i].1, p, exact),
    decreases es.len(),
{
    if es.len() > 0 {
        lemma_any_member(es.drop_first(), p, exact);
        if exists|i: int| 0 <= i < es.len() && value_matches(#[trigger] es[i].1, p, exact) {
            let i = choose|i: int| 0 <= i < es.len() && value_matches(#[trigger] es[i].1, p, exact);
            if i > 0 {
                assert(es.drop_first()[i - 1] == es[i]);
            }
        }
        if exists|i: int| 0 <= i < es.drop_first().len() && value_matches(#[trigger] es.drop_first()[i].1, p, exact) {
            let i = choose|i: int| 0 <= i < es.drop_first().len() && value_matches(#[trigger] es.drop_first()[i].1, p, exact);
            assert(es[i + 1] == es.drop_first()[i]);
        }
    }
}

/// With the list focused (no overlay open, navigation mode), Home selects
/// the first row and End the last one (when the list has rows); the
/// filter and the list itself stay as they are.
pub proof fn law_list_home_end(u: UiView, c: KeyCtx, e: AppKeyEvent)
    requires
        !e.is_release,
        !u.show_help,
        !u.show_version_picker,
        u.mode == InputMode::Normal,
        u.focus == FocusPane::List,
    ensures
        e.code == AppKeyCode::Home ==> key_ui(u, c, e).list.selected == Some(0usize),
        e.code == AppKeyCode::End && u.filtered.len() > 0 ==> key_ui(u, c, e).list.selected == Some(
            (u.filtered.len() - 1) as usize,
        ),
        e.code == AppKeyCode::End && u.filtered.len() == 0 ==> key_ui(u, c, e) == u,
        e.code == AppKeyCode::Home || e.code == AppKeyCode::End ==> key_ui(u, c, e).filter == u.filter
            && key_ui(u, c, e).filtered == u.filtered,
{
}

} // verus!
