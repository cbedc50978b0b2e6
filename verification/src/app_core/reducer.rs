//! The event reducer: what a key press or a mouse event does to the
//! application state. Runtimes convert their events to [`AppKeyEvent`] and
//! [`AppMouseEvent`] and act on `pending_action` afterwards.
use vstd::prelude::*;

use crate::app_core::input::{AppKeyCode, AppKeyEvent, AppMouseEvent, AppMouseKind};
use crate::app_core::layout::{ListSelection, ScrollState, scroll_origin, with_y, sat_add, sat_sub, page_height};
use crate::app_core::state::{
    ActionSpec, AppAction, AppState, FocusPane, InputMode, UiView, display_fresh, keeps, next_pane,
    prev_pane, refreshed, ui_add_char, ui_backspace, ui_clear, ui_delete, ui_delete_word, ui_end,
    ui_focus, ui_left, ui_move, ui_refilter, ui_refreshed, ui_right, ui_start,
};
use crate::model::IndexedItem;
use crate::search_index::SearchIndex;
use crate::text::{
    append_str, char_is_alphanumeric, char_is_whitespace, chars_of, first_index, is_alphanumeric,
    is_whitespace, lemma_first_index, push_char, str_eq, string_from_range,
};
use crate::highlight::{AnnotatedSpan, SpanSpec, lines_view, opt_view, spans_view};
use crate::ui::{
    column_cursor, column_fits, column_fits_exec, details_cell_fits, details_hit, details_hit_fits,
    filter_cursor_for_column, filter_cursor_offset_checked, hit_test_details, hit_test_fits,
    viewport_offset, wrapped_line,
};
use crate::width::{prefix, text_width};

verus! {

/// Rows a mouse wheel step scrolls.
pub const SCROLL_LINES: u16 = 1;

/// Fields whose values never act as links: `id`, `abstract`,
/// `description`, `name`, `__filename`, `//`, `//2` and `rows`.
pub open spec fn excluded_field(f: Seq<char>) -> bool {
    f == "id"@ || f == "abstract"@ || f == "description"@ || f == "name"@ || f == "__filename"@
        || f == "//"@ || f == "//2"@ || f == "rows"@
}

/// Whether `f` is one of the fields whose values never act as links.
pub fn is_excluded_field(f: &str) -> (b: bool)
    ensures
        b == excluded_field(f@),
{
    str_eq(f, "id") || str_eq(f, "abstract") || str_eq(f, "description") || str_eq(f, "name")
        || str_eq(f, "__filename") || str_eq(f, "//") || str_eq(f, "//2") || str_eq(f, "rows")
}

/// The pane under the cell `(column, row)`: the filter pane first, then the
/// list, then the details.
pub open spec fn spec_pane_at(app: &AppState, column: u16, row: u16) -> Option<FocusPane> {
    if app.filter_area matches Some(a) && a.spec_contains(column, row) {
        Some(FocusPane::Filter)
    } else if app.list_area matches Some(a) && a.spec_contains(column, row) {
        Some(FocusPane::List)
    } else if app.details_area matches Some(a) && a.spec_contains(column, row) {
        Some(FocusPane::Details)
    } else {
        None
    }
}

/// Returns the pane that contains the cell `(column, row)`, if any.
pub fn pane_at(app: &AppState, column: u16, row: u16) -> (p: Option<FocusPane>)
    ensures
        p == spec_pane_at(app, column, row),
{
    if let Some(area) = &app.filter_area {
        if area.contains(column, row) {
            return Some(FocusPane::Filter);
        }
    }
    if let Some(area) = &app.list_area {
        if area.contains(column, row) {
            return Some(FocusPane::List);
        }
    }
    if let Some(area) = &app.details_area {
        if area.contains(column, row) {
            return Some(FocusPane::Details);
        }
    }
    None
}

/// What key handling reads besides the interactive state: the items and
/// their index, the list height used as page size, whether a source
/// directory is set, and the versions of the picker entries.
pub struct KeyCtx {
    pub items: Seq<IndexedItem>,
    pub ix: SearchIndex,
    pub page: u16,
    pub has_source: bool,
    pub versions: Seq<Seq<char>>,
}

/// The context of `app`.
pub open spec fn key_ctx(app: &AppState) -> KeyCtx {
    KeyCtx {
        items: app.indexed_items@,
        ix: app.search_index,
        page: match app.list_area {
            Some(a) => a.height,
            None => 10,
        },
        has_source: app.source_dir is Some,
        versions: app.version_entries@.map_values(|v: crate::app_core::state::VersionEntry| v.version@),
    }
}

/// The filter is only whitespace.
pub open spec fn blank(s: Seq<char>) -> bool {
    forall|i: int| 0 <= i < s.len() ==> char_is_whitespace(#[trigger] s[i])
}

/// A key in the version picker: Esc closes it, Up and Down move the
/// selection, Enter asks to switch to the selected version.
pub open spec fn picker_key(u: UiView, c: KeyCtx, code: AppKeyCode) -> UiView {
    match code {
        AppKeyCode::Esc => UiView { show_version_picker: false, ..u },
        AppKeyCode::Up => UiView { version_list: u.version_list.after_previous(), ..u },
        AppKeyCode::Down => UiView { version_list: u.version_list.after_next(), ..u },
        AppKeyCode::Enter => match u.version_list.selected {
            Some(i) => if i < c.versions.len() {
                UiView { pending: Some(ActionSpec::SwitchVersion(c.versions[i as int])), ..u }
            } else {
                u
            },
            None => u,
        },
        _ => u,
    }
}

/// The list selection set to `sel`, with the details refreshed.
pub open spec fn ui_select(u: UiView, sel: usize) -> UiView {
    ui_refreshed(UiView { list: u.list.selected_as(Some(sel)), ..u })
}

/// The details scroll set to `s`.
pub open spec fn ui_scroll(u: UiView, s: ScrollState) -> UiView {
    UiView { scroll: s, ..u }
}

/// The selected row, or 0.
pub open spec fn current_row(u: UiView) -> usize {
    match u.list.selected {
        Some(s) => s,
        None => 0,
    }
}

/// Up and Down (without Ctrl), Home, End, PageUp and PageDown.
pub open spec fn is_nav(e: AppKeyEvent) -> bool {
    match e.code {
        AppKeyCode::Up | AppKeyCode::Down => !e.ctrl,
        AppKeyCode::Home | AppKeyCode::End | AppKeyCode::PageUp | AppKeyCode::PageDown => true,
        _ => false,
    }
}

/// A navigation key scrolling the details: by a row, to the top, to the
/// bottom, or by a page.
pub open spec fn details_nav(u: UiView, code: AppKeyCode) -> UiView {
    match code {
        AppKeyCode::Up => ui_scroll(u, with_y(u.scroll, sat_sub(u.scroll.offset.y, 1))),
        AppKeyCode::Down => ui_scroll(u, with_y(u.scroll, sat_add(u.scroll.offset.y, 1))),
        AppKeyCode::Home => ui_scroll(u, scroll_origin()),
        AppKeyCode::End => ui_scroll(u, with_y(u.scroll, match u.scroll.size {
            Some(s) => sat_sub(s.height, 1),
            None => u16::MAX,
        })),
        AppKeyCode::PageUp => ui_scroll(u, with_y(u.scroll, sat_sub(sat_add(u.scroll.offset.y, 1), page_height(u.scroll)))),
        AppKeyCode::PageDown => ui_scroll(u, with_y(u.scroll, sat_sub(sat_add(u.scroll.offset.y, page_height(u.scroll)), 1))),
        _ => u,
    }
}

/// A navigation key moving the list selection: by a row, to the first or
/// last row, or by a page of the list's height (10 rows before it is drawn).
pub open spec fn list_nav(u: UiView, c: KeyCtx, code: AppKeyCode) -> UiView {
    let len = u.filtered.len();
    match code {
        AppKeyCode::Up => ui_move(u, false),
        AppKeyCode::Down => ui_move(u, true),
        AppKeyCode::Home => ui_select(u, 0),
        AppKeyCode::End => if len > 0 { ui_select(u, (len - 1) as usize) } else { u },
        AppKeyCode::PageUp => ui_select(u, if current_row(u) < c.page { 0 } else { (current_row(u) - c.page) as usize }),
        AppKeyCode::PageDown => if len > 0 {
            ui_select(u, if current_row(u) + c.page < len - 1 { (current_row(u) + c.page) as usize } else { (len - 1) as usize })
        } else {
            u
        },
        _ => u,
    }
}

/// Whether a list navigation key refreshes the details.
pub open spec fn list_nav_refreshes(u: UiView, code: AppKeyCode) -> bool {
    match code {
        AppKeyCode::Up | AppKeyCode::Down | AppKeyCode::Home | AppKeyCode::PageUp => true,
        AppKeyCode::End | AppKeyCode::PageDown => u.filtered.len() > 0,
        _ => false,
    }
}

/// A key in navigation mode. Up, Down, Home, End, PageUp and PageDown
/// scroll the details when they are focused and move the list selection
/// otherwise; `q` quits, `/` focuses the filter, `?` opens the help, and an
/// alphanumeric character starts typing it into the filter.
pub open spec fn normal_key(u: UiView, c: KeyCtx, e: AppKeyEvent) -> UiView {
    if is_nav(e) {
        if u.focus == FocusPane::Details {
            details_nav(u, e.code)
        } else {
            list_nav(u, c, e.code)
        }
    } else {
        match e.code {
            AppKeyCode::Char('q') => UiView { should_quit: true, ..u },
            AppKeyCode::Char('/') => ui_focus(u, FocusPane::Filter),
            AppKeyCode::Char('?') => UiView { show_help: true, ..u },
            AppKeyCode::Char('r') if e.ctrl => if c.has_source {
                UiView { pending: Some(ActionSpec::ReloadSource), ..u }
            } else {
                u
            },
            AppKeyCode::Char(ch) if char_is_alphanumeric(ch) && !e.ctrl && !e.alt => ui_refilter(
                ui_add_char(ui_end(ui_focus(u, FocusPane::Filter)), ch),
                c.items,
                c.ix,
            ),
            _ => u,
        }
    }
}

/// The filter history browsed one entry back (entering it from the
/// newest entry and saving the current filter first).
pub open spec fn history_up(u: UiView, c: KeyCtx) -> UiView {
    if u.history.len() == 0 {
        u
    } else {
        let u1 = match u.history_index {
            None => UiView { stashed: u.filter, history_index: Some((u.history.len() - 1) as usize), ..u },
            Some(i) => if i > 0 { UiView { history_index: Some((i - 1) as usize), ..u } } else { u },
        };
        match u1.history_index {
            Some(i) => ui_refilter(ui_end(UiView { filter: u1.history[i as int], ..u1 }), c.items, c.ix),
            None => u1,
        }
    }
}

/// The filter history browsed one entry forward (leaving it after the
/// newest entry and restoring the saved filter).
pub open spec fn history_down(u: UiView, c: KeyCtx) -> UiView {
    match u.history_index {
        Some(i) => {
            let u1 = if i + 1 < u.history.len() {
                UiView { history_index: Some((i + 1) as usize), filter: u.history[i + 1], ..u }
            } else {
                UiView { history_index: None, filter: u.stashed, ..u }
            };
            ui_refilter(ui_end(u1), c.items, c.ix)
        },
        None => u,
    }
}

/// A key in filter mode: Enter keeps a non-blank filter in the history
/// (unless it repeats the newest entry) and returns to the list, Esc
/// returns to the list, Ctrl-U, Ctrl-W, characters, Backspace and Delete
/// edit the filter and recompute the list, Ctrl-A and Ctrl-E, Home, End,
/// Left and Right move the cursor, Up and Down browse the history.
pub open spec fn filtering_key(u: UiView, c: KeyCtx, e: AppKeyEvent) -> UiView {
    let no_hist = UiView { history_index: None, ..u };
    match e.code {
        AppKeyCode::Enter => {
            let u1 = if !blank(u.filter) && (u.history.len() == 0 || u.history.last() != u.filter) {
                UiView { history: u.history.push(u.filter), ..u }
            } else {
                u
            };
            ui_focus(UiView { history_index: None, ..u1 }, FocusPane::List)
        },
        AppKeyCode::Esc => ui_focus(no_hist, FocusPane::List),
        AppKeyCode::Char('u') if e.ctrl => ui_refilter(ui_clear(u), c.items, c.ix),
        AppKeyCode::Char('w') if e.ctrl => ui_refilter(ui_delete_word(u), c.items, c.ix),
        AppKeyCode::Char('a') if e.ctrl => ui_start(u),
        AppKeyCode::Char('e') if e.ctrl => ui_end(u),
        AppKeyCode::Char(ch) if !e.ctrl => ui_refilter(ui_add_char(no_hist, ch), c.items, c.ix),
        AppKeyCode::Backspace => ui_refilter(ui_backspace(no_hist), c.items, c.ix),
        AppKeyCode::Delete => ui_refilter(ui_delete(no_hist), c.items, c.ix),
        AppKeyCode::Up => history_up(u, c),
        AppKeyCode::Down => history_down(u, c),
        AppKeyCode::Left => ui_left(u),
        AppKeyCode::Right => ui_right(u),
        AppKeyCode::Home => ui_start(u),
        AppKeyCode::End => ui_end(u),
        _ => u,
    }
}

/// The effect of a key event on the interactive state. Releases are
/// ignored; Ctrl-G asks for the version picker, Ctrl-R for a reload of the
/// source directory (when there is one); Tab and Shift-Tab/BackTab cycle
/// the focus; an open help overlay or version picker takes the key;
/// otherwise the input mode decides.
pub open spec fn key_ui(u: UiView, c: KeyCtx, e: AppKeyEvent) -> UiView {
    if e.is_release {
        u
    } else if e.ctrl && e.code == AppKeyCode::Char('g') {
        UiView {
            show_help: false,
            show_version_picker: false,
            history_index: None,
            pending: Some(ActionSpec::OpenVersionPicker),
            ..ui_focus(u, FocusPane::List)
        }
    } else if e.ctrl && e.code == AppKeyCode::Char('r') {
        if c.has_source {
            UiView { pending: Some(ActionSpec::ReloadSource), ..u }
        } else {
            u
        }
    } else if e.code == AppKeyCode::Tab || e.code == AppKeyCode::BackTab {
        if e.code == AppKeyCode::BackTab || e.shift {
            ui_focus(u, prev_pane(u.focus))
        } else {
            ui_focus(u, next_pane(u.focus))
        }
    } else if u.show_help {
        if e.code == AppKeyCode::Char('?') || e.code == AppKeyCode::Esc {
            UiView { show_help: false, ..u }
        } else {
            u
        }
    } else if u.show_version_picker {
        picker_key(u, c, e.code)
    } else {
        match u.mode {
            InputMode::Normal => normal_key(u, c, e),
            InputMode::Filtering => filtering_key(u, c, e),
        }
    }
}

/// Whether a navigation-mode key recomputes the list.
pub open spec fn normal_refilters(e: AppKeyEvent) -> bool {
    match e.code {
        AppKeyCode::Char(ch) => ch != 'q' && ch != '/' && ch != '?' && char_is_alphanumeric(ch) && !e.ctrl && !e.alt,
        _ => false,
    }
}

/// Whether a navigation-mode key refreshes the details.
pub open spec fn normal_refreshes(u: UiView, e: AppKeyEvent) -> bool {
    ||| normal_refilters(e)
    ||| (is_nav(e) && u.focus != FocusPane::Details && list_nav_refreshes(u, e.code))
}

/// Whether a filter-mode key recomputes the list (and refreshes the details).
pub open spec fn filtering_refilters(u: UiView, e: AppKeyEvent) -> bool {
    match e.code {
        AppKeyCode::Char(ch) => if e.ctrl { ch == 'u' || ch == 'w' } else { true },
        AppKeyCode::Backspace | AppKeyCode::Delete => true,
        AppKeyCode::Up => u.history.len() > 0,
        AppKeyCode::Down => u.history_index is Some,
        _ => false,
    }
}

/// The key reaches the input-mode handling.
pub open spec fn key_reaches_mode(u: UiView, e: AppKeyEvent) -> bool {
    &&& !e.is_release
    &&& !(e.ctrl && e.code == AppKeyCode::Char('g'))
    &&& !(e.ctrl && e.code == AppKeyCode::Char('r'))
    &&& !(e.code == AppKeyCode::Tab || e.code == AppKeyCode::BackTab)
    &&& !u.show_help
    &&& !u.show_version_picker
}

/// Whether a key event types a character into the filter (the one case
/// in which the filter grows by a character).
pub open spec fn key_types_char(u: UiView, e: AppKeyEvent) -> bool {
    key_reaches_mode(u, e) && match u.mode {
        InputMode::Normal => normal_refilters(e),
        InputMode::Filtering => e.code is Char && !e.ctrl,
    }
}

/// Whether a key event recomputes the list.
pub open spec fn key_refilters(u: UiView, e: AppKeyEvent) -> bool {
    key_reaches_mode(u, e) && match u.mode {
        InputMode::Normal => normal_refilters(e),
        InputMode::Filtering => filtering_refilters(u, e),
    }
}

/// Whether a key event refreshes the details.
pub open spec fn key_refreshes(u: UiView, e: AppKeyEvent) -> bool {
    key_reaches_mode(u, e) && match u.mode {
        InputMode::Normal => normal_refreshes(u, e),
        InputMode::Filtering => filtering_refilters(u, e),
    }
}

/// The effect of a key on the rest of the state: the setting is kept; the
/// list entries are rebuilt when the list is recomputed and kept otherwise;
/// the details are refreshed or kept.
pub open spec fn key_effects(before: &AppState, after: &AppState, refilters: bool, refreshes: bool) -> bool {
    &&& after.same_setting(before)
    &&& if refilters { display_fresh(after) } else { after.same_display(before) }
    &&& if refreshes { refreshed(before, after) } else { after.same_details(before) }
}

/// Whether the filter is only whitespace.
pub(crate) fn is_blank(s: &str) -> (b: bool)
    ensures
        b == blank(s@),
{
    let cs = crate::text::chars_of(s);
    let mut i: usize = 0;
    while i < cs.len()
        invariant
            0 <= i <= cs@.len(),
            cs@ == s@,
            forall|j: int| 0 <= j < i ==> char_is_whitespace(#[trigger] cs@[j]),
        decreases cs@.len() - i,
    {
        if !is_whitespace(cs[i]) {
            return false;
        }
        i += 1;
    }
    true
}

fn handle_picker_key(app: &mut AppState, code: AppKeyCode)
    requires
        old(app).wf(),
    ensures
        final(app).ui() == picker_key(old(app).ui(), key_ctx(&*old(app)), code),
        keeps(&*old(app), &*final(app)),
        final(app).wf(),
{
    match code {
        AppKeyCode::Esc => {
            app.show_version_picker = false;
        },
        AppKeyCode::Up => {
            app.version_list_state.select_previous();
        },
        AppKeyCode::Down => {
            app.version_list_state.select_next();
        },
        AppKeyCode::Enter => {
            if let Some(idx) = app.version_list_state.selected() {
                if idx < app.version_entries.len() {
                    let v = app.version_entries[idx].version.clone();
                    proof {
                        assert(key_ctx(&*old(app)).versions[idx as int] == app.version_entries@[idx as int].version@);
                    }
                    app.pending_action = Some(AppAction::SwitchVersion(v));
                }
            }
        },
        _ => {},
    }
}

fn handle_details_nav(app: &mut AppState, code: AppKeyCode)
    requires
        old(app).wf(),
    ensures
        final(app).ui() == details_nav(old(app).ui(), code),
        keeps(&*old(app), &*final(app)),
        final(app).wf(),
{
    match code {
        AppKeyCode::Up => app.scroll_details_up(),
        AppKeyCode::Down => app.scroll_details_down(),
        AppKeyCode::Home => {
            app.details_scroll_state = ScrollState::new();
        },
        AppKeyCode::End => app.details_scroll_state.scroll_to_bottom(),
        AppKeyCode::PageUp => app.details_scroll_state.scroll_page_up(),
        AppKeyCode::PageDown => app.details_scroll_state.scroll_page_down(),
        _ => {},
    }
}

fn handle_list_nav(app: &mut AppState, code: AppKeyCode)
    requires
        old(app).wf(),
    ensures
        final(app).ui() == list_nav(old(app).ui(), key_ctx(&*old(app)), code),
        key_effects(&*old(app), &*final(app), false, list_nav_refreshes(old(app).ui(), code)),
        final(app).wf(),
{
    let page: u16 = match app.list_area {
        Some(a) => a.height,
        None => 10,
    };
    let current = match app.list_state.selected() {
        Some(s) => s,
        None => 0,
    };
    let len = app.filtered_indices.len();
    match code {
        AppKeyCode::Up => app.move_selection(-1),
        AppKeyCode::Down => app.move_selection(1),
        AppKeyCode::Home => {
            app.list_state.select(Some(0));
            app.refresh_details();
        },
        AppKeyCode::End => {
            if len > 0 {
                app.list_state.select(Some(len - 1));
                app.refresh_details();
            }
        },
        AppKeyCode::PageUp => {
            let new_sel = current.saturating_sub(page as usize);
            app.list_state.select(Some(new_sel));
            app.refresh_details();
        },
        AppKeyCode::PageDown => {
            if len > 0 {
                let sum = current.saturating_add(page as usize);
                let new_sel = if sum < len - 1 { sum } else { len - 1 };
                app.list_state.select(Some(new_sel));
                app.refresh_details();
            }
        },
        _ => {},
    }
}

fn handle_normal_key(app: &mut AppState, event: AppKeyEvent)
    requires
        old(app).wf(),
        normal_refilters(event) ==> old(app).filter_text@.len() < usize::MAX,
    ensures
        final(app).ui() == normal_key(old(app).ui(), key_ctx(&*old(app)), event),
        key_effects(&*old(app), &*final(app), normal_refilters(event), normal_refreshes(old(app).ui(), event)),
        final(app).wf(),
{
    let ctrl = event.ctrl;
    let alt = event.alt;
    let nav = match event.code {
        AppKeyCode::Up | AppKeyCode::Down => !ctrl,
        AppKeyCode::Home | AppKeyCode::End | AppKeyCode::PageUp | AppKeyCode::PageDown => true,
        _ => false,
    };
    if nav {
        let details = match app.focused_pane {
            FocusPane::Details => true,
            _ => false,
        };
        if details {
            handle_details_nav(app, event.code);
        } else {
            handle_list_nav(app, event.code);
        }
        return;
    }
    let ch = match event.code {
        AppKeyCode::Char(c) => Some(c),
        _ => None,
    };
    if let Some(c) = ch {
        if c == 'q' {
            app.should_quit = true;
        } else if c == '/' {
            app.focus_pane(FocusPane::Filter);
        } else if c == '?' {
            app.show_help = true;
        } else if c == 'r' && ctrl {
            if app.source_dir.is_some() {
                app.pending_action = Some(AppAction::ReloadSource);
            }
        } else if is_alphanumeric(c) && !ctrl && !alt {
            app.focus_pane(FocusPane::Filter);
            app.filter_move_to_end();
            app.filter_add_char(c);
            app.update_filter();
        }
    }
}

fn handle_history_up(app: &mut AppState)
    requires
        old(app).wf(),
    ensures
        final(app).ui() == history_up(old(app).ui(), key_ctx(&*old(app))),
        key_effects(&*old(app), &*final(app), old(app).filter_history@.len() > 0, old(app).filter_history@.len() > 0),
        final(app).wf(),
{
    let n = app.filter_history.len();
    if n == 0 {
        return;
    }
    match app.history_index {
        None => {
            app.stashed_input = app.filter_text.clone();
            app.history_index = Some(n - 1);
        },
        Some(idx) => {
            if idx > 0 {
                app.history_index = Some(idx - 1);
            }
        },
    }
    if let Some(idx) = app.history_index {
        let h = app.filter_history[idx].clone();
        proof {
            assert(crate::app_core::state::strings_of(app.filter_history@)[idx as int] == h@);
        }
        app.filter_cursor = 0;
        app.filter_text = h;
        app.filter_move_to_end();
        app.update_filter();
    }
}

fn handle_history_down(app: &mut AppState)
    requires
        old(app).wf(),
    ensures
        final(app).ui() == history_down(old(app).ui(), key_ctx(&*old(app))),
        key_effects(&*old(app), &*final(app), old(app).history_index is Some, old(app).history_index is Some),
        final(app).wf(),
{
    if let Some(idx) = app.history_index {
        let n = app.filter_history.len();
        if idx < n - 1 {
            app.history_index = Some(idx + 1);
            let h = app.filter_history[idx + 1].clone();
            proof {
                assert(crate::app_core::state::strings_of(app.filter_history@)[idx + 1] == h@);
            }
            app.filter_cursor = 0;
            app.filter_text = h;
        } else {
            app.history_index = None;
            app.filter_cursor = 0;
            app.filter_text = app.stashed_input.clone();
        }
        app.filter_move_to_end();
        app.update_filter();
    }
}

/// Keeps a non-blank filter in the history unless it repeats the newest entry.
fn remember_filter(app: &mut AppState)
    requires
        old(app).wf(),
    ensures
        final(app).ui() == (if !blank(old(app).filter_text@) && (old(app).ui().history.len() == 0
            || old(app).ui().history.last() != old(app).filter_text@) {
            UiView { history: old(app).ui().history.push(old(app).filter_text@), ..old(app).ui() }
        } else {
            old(app).ui()
        }),
        keeps(&*old(app), &*final(app)),
        final(app).wf(),
{
    if is_blank(app.filter_text.as_str()) {
        return;
    }
    let n = app.filter_history.len();
    let repeat = n > 0 && str_eq(app.filter_history[n - 1].as_str(), app.filter_text.as_str());
    proof {
        if n > 0 {
            assert(crate::app_core::state::strings_of(app.filter_history@).last() == app.filter_history@[n - 1]@);
        }
    }
    if !repeat {
        let t = app.filter_text.clone();
        let ghost before = app.filter_history@;
        app.filter_history.push(t);
        assert(crate::app_core::state::strings_of(app.filter_history@) =~= crate::app_core::state::strings_of(before).push(t@));
    }
}

fn handle_filtering_key(app: &mut AppState, event: AppKeyEvent)
    requires
        old(app).wf(),
        event.code is Char && !event.ctrl ==> old(app).filter_text@.len() < usize::MAX,
    ensures
        final(app).ui() == filtering_key(old(app).ui(), key_ctx(&*old(app)), event),
        key_effects(&*old(app), &*final(app), filtering_refilters(old(app).ui(), event), filtering_refilters(old(app).ui(), event)),
        final(app).wf(),
{
    let ctrl = event.ctrl;
    let ch = match event.code {
        AppKeyCode::Char(c) => Some(c),
        _ => None,
    };
    if let Some(c) = ch {
        if ctrl {
            if c == 'u' {
                app.filter_clear();
                app.update_filter();
            } else if c == 'w' {
                app.filter_delete_word();
                app.update_filter();
            } else if c == 'a' {
                app.filter_move_to_start();
            } else if c == 'e' {
                app.filter_move_to_end();
            }
        } else {
            app.history_index = None;
            app.filter_add_char(c);
            app.update_filter();
        }
        return;
    }
    match event.code {
        AppKeyCode::Enter => {
            remember_filter(app);
            app.history_index = None;
            app.focus_pane(FocusPane::List);
        },
        AppKeyCode::Esc => {
            app.history_index = None;
            app.focus_pane(FocusPane::List);
        },
        AppKeyCode::Backspace => {
            app.history_index = None;
            app.filter_backspace();
            app.update_filter();
        },
        AppKeyCode::Delete => {
            app.history_index = None;
            app.filter_delete();
            app.update_filter();
        },
        AppKeyCode::Up => handle_history_up(app),
        AppKeyCode::Down => handle_history_down(app),
        AppKeyCode::Left => app.filter_move_cursor_left(),
        AppKeyCode::Right => app.filter_move_cursor_right(),
        AppKeyCode::Home => app.filter_move_to_start(),
        AppKeyCode::End => app.filter_move_to_end(),
        _ => {},
    }
}

/// Handles a key event (see [`key_ui`] for what each key does). Releases
/// are ignored. The runtime acts on `pending_action` afterwards.
pub fn handle_key_event(app: &mut AppState, event: AppKeyEvent)
    requires
        old(app).wf(),
        key_types_char(old(app).ui(), event) ==> old(app).filter_text@.len() < usize::MAX,
    ensures
        final(app).ui() == key_ui(old(app).ui(), key_ctx(&*old(app)), event),
        key_effects(&*old(app), &*final(app), key_refilters(old(app).ui(), event), key_refreshes(old(app).ui(), event)),
        final(app).wf(),
        event.is_release ==> *final(app) == *old(app),
        !event.is_release && (event.code == AppKeyCode::Tab || event.code == AppKeyCode::BackTab) ==> {
            &&& final(app).focused_pane == (if event.code == AppKeyCode::BackTab || event.shift {
                prev_pane(old(app).focused_pane)
            } else {
                next_pane(old(app).focused_pane)
            })
            &&& final(app).input_mode == (if final(app).focused_pane == FocusPane::Filter {
                InputMode::Filtering
            } else {
                InputMode::Normal
            })
            &&& final(app).filter_text@ == old(app).filter_text@
        },
        old(app).show_help && !event.is_release && event.code != AppKeyCode::Tab && event.code
            != AppKeyCode::BackTab && !(event.ctrl && (event.code == AppKeyCode::Char('g') || event.code
            == AppKeyCode::Char('r'))) ==> {
            &&& final(app).ui() == (if event.code == AppKeyCode::Char('?') || event.code == AppKeyCode::Esc {
                UiView { show_help: false, ..old(app).ui() }
            } else {
                old(app).ui()
            })
            &&& keeps(&*old(app), &*final(app))
        },
{
    if event.is_release {
        return;
    }
    let code = event.code;
    let ctrl = event.ctrl;
    if ctrl && code == AppKeyCode::Char('g') {
        app.show_help = false;
        app.show_version_picker = false;
        app.focus_pane(FocusPane::List);
        app.history_index = None;
        app.pending_action = Some(AppAction::OpenVersionPicker);
        return;
    }
    if ctrl && code == AppKeyCode::Char('r') {
        if app.source_dir.is_some() {
            app.pending_action = Some(AppAction::ReloadSource);
        }
        return;
    }
    if code == AppKeyCode::Tab || code == AppKeyCode::BackTab {
        if code == AppKeyCode::BackTab || event.shift {
            app.focus_prev_pane();
        } else {
            app.focus_next_pane();
        }
        return;
    }
    if app.show_help {
        if code == AppKeyCode::Char('?') || code == AppKeyCode::Esc {
            app.show_help = false;
        }
        return;
    }
    if app.show_version_picker {
        handle_picker_key(app, code);
        return;
    }
    let filtering = match app.input_mode {
        InputMode::Filtering => true,
        InputMode::Normal => false,
    };
    if filtering {
        handle_filtering_key(app, event);
    } else {
        handle_normal_key(app, event);
    }
}

/// What `serde_json::from_str::<String>` makes of a text: the string a
/// JSON string literal stands for, or `None` when the text is not one.
pub uninterp spec fn json_string_literal(s: Seq<char>) -> Option<Seq<char>>;

/// `serde_json::from_str::<String>`: the value of the JSON string literal
/// `s` (`None` when `s` is not one). Its result is a function of `s` alone,
/// named [`json_string_literal`]; nothing more is stated of it.
#[verifier::external_body]
fn parse_json_string(s: &str) -> (r: Option<String>)
    ensures
        opt_view(r) == json_string_literal(s@),
{
    serde_json::from_str::<String>(s).ok()
}

/// Position of the first non-whitespace character from `i`.
pub open spec fn trim_start_at(s: Seq<char>, i: int) -> int
    decreases s.len() - i,
{
    if 0 <= i < s.len() && char_is_whitespace(s[i]) {
        trim_start_at(s, i + 1)
    } else {
        i
    }
}

/// Position after the last non-whitespace character before `j`.
pub open spec fn trim_end_at(s: Seq<char>, j: int) -> int
    decreases j,
{
    if 0 < j <= s.len() && char_is_whitespace(s[j - 1]) {
        trim_end_at(s, j - 1)
    } else {
        j
    }
}

/// `s` without leading and trailing whitespace.
pub open spec fn trim(s: Seq<char>) -> Seq<char> {
    let a = trim_start_at(s, 0);
    let b = trim_end_at(s, s.len() as int);
    if a < b {
        s.subrange(a, b)
    } else {
        Seq::empty()
    }
}

proof fn lemma_trim_bounds(s: Seq<char>, i: int, j: int)
    requires
        0 <= i <= s.len(),
        0 <= j <= s.len(),
    ensures
        i <= trim_start_at(s, i) <= s.len(),
        0 <= trim_end_at(s, j) <= j,
    decreases s.len() - i + j,
{
    if i < s.len() && char_is_whitespace(s[i]) {
        lemma_trim_bounds(s, i + 1, j);
    } else if j > 0 && char_is_whitespace(s[j - 1]) {
        lemma_trim_bounds(s, i, j - 1);
    }
}

/// `s` without leading and trailing whitespace.
pub fn trim_str(s: &str) -> (out: String)
    ensures
        out@ == trim(s@),
{
    let cs = chars_of(s);
    let n = cs.len();
    let mut a: usize = 0;
    while a < n && is_whitespace(cs[a])
        invariant
            a <= n == cs@.len(),
            cs@ == s@,
            trim_start_at(cs@, 0) == trim_start_at(cs@, a as int),
        decreases n - a,
    {
        a += 1;
    }
    let mut b: usize = n;
    while b > 0 && is_whitespace(cs[b - 1])
        invariant
            b <= n == cs@.len(),
            cs@ == s@,
            trim_end_at(cs@, n as int) == trim_end_at(cs@, b as int),
        decreases b,
    {
        b -= 1;
    }
    if a < b {
        string_from_range(cs.as_slice(), a, b)
    } else {
        String::new()
    }
}

/// The text before the first `.` of a key path.
pub open spec fn first_part(p: Seq<char>) -> Seq<char> {
    p.take(first_index(p, '.'))
}

/// The texts of the spans of a line with identifier `id`, joined.
pub open spec fn line_id_text(l: Seq<SpanSpec>, id: nat) -> Seq<char>
    decreases l.len(),
{
    if l.len() == 0 {
        Seq::empty()
    } else {
        line_id_text(l.drop_last(), id) + if l.last().span_id == Some(id) { l.last().content } else { Seq::empty() }
    }
}

/// The texts of the spans of the lines with identifier `id`, joined.
pub open spec fn id_text(lines: Seq<Seq<SpanSpec>>, id: nat) -> Seq<char>
    decreases lines.len(),
{
    if lines.len() == 0 {
        Seq::empty()
    } else {
        id_text(lines.drop_last(), id) + line_id_text(lines.last(), id)
    }
}

/// A character as it is written inside a single-quoted filter term.
pub open spec fn escape_char(c: char) -> Seq<char> {
    if c == '\\' {
        seq!['\\', '\\']
    } else if c == '\'' {
        seq!['\\', '\'']
    } else {
        seq![c]
    }
}

/// `s` with backslashes doubled and apostrophes escaped.
pub open spec fn escape_quotes(s: Seq<char>) -> Seq<char>
    decreases s.len(),
{
    if s.len() == 0 {
        Seq::empty()
    } else {
        escape_quotes(s.drop_last()) + escape_char(s.last())
    }
}

/// The value a clicked span stands for: a double-quoted text is read as a
/// JSON string (its inner text when it does not parse), other text as is.
pub open spec fn click_value(clean: Seq<char>, parsed: Option<Seq<char>>) -> Seq<char> {
    if clean.len() >= 2 && clean[0] == '"' && clean.last() == '"' {
        match parsed {
            Some(v) => v,
            None => clean.subrange(1, clean.len() - 1),
        }
    } else {
        clean
    }
}

/// A value as an exact (single-quoted) filter pattern.
pub open spec fn quoted_term(v: Seq<char>) -> Seq<char> {
    seq!['\''] + escape_quotes(v) + seq!['\'']
}

/// The exact filter pattern for the trimmed text `clean` of a clicked value,
/// given what parsing it as a JSON string gave.
pub fn click_filter_value(clean: &str, parsed: Option<String>) -> (out: String)
    ensures
        out@ == quoted_term(click_value(clean@, opt_view(parsed))),
{
    let cs = chars_of(clean);
    let n = cs.len();
    let value: Vec<char> = if n >= 2 && cs[0] == '"' && cs[n - 1] == '"' {
        match parsed {
            Some(v) => chars_of(v.as_str()),
            None => crate::text::chars_range(cs.as_slice(), 1, n - 1),
        }
    } else {
        cs
    };
    let ghost v = value@;
    assert(v == click_value(clean@, opt_view(parsed)));
    let mut out = String::new();
    push_char(&mut out, '\'');
    let mut i: usize = 0;
    while i < value.len()
        invariant
            0 <= i <= value@.len(),
            v == value@,
            out@ == seq!['\''] + escape_quotes(v.take(i as int)),
        decreases value@.len() - i,
    {
        let c = value[i];
        let ghost before = out@;
        if c == '\\' {
            push_char(&mut out, '\\');
            push_char(&mut out, '\\');
        } else if c == '\'' {
            push_char(&mut out, '\\');
            push_char(&mut out, '\'');
        } else {
            push_char(&mut out, c);
        }
        proof {
            assert(v.take(i + 1).drop_last() == v.take(i as int));
            assert(v.take(i + 1).last() == c);
            assert(out@ =~= before + escape_char(c));
        }
        i += 1;
    }
    push_char(&mut out, '\'');
    assert(v.take(v.len() as int) == v);
    out
}

/// The joined texts of the rendered spans with identifier `id`.
fn collect_id_text(lines: &Vec<Vec<AnnotatedSpan>>, id: usize) -> (out: String)
    ensures
        out@ == id_text(lines_view(lines@), id as nat),
{
    let ghost lv = lines_view(lines@);
    let mut out = String::new();
    let mut i: usize = 0;
    assert(lv.take(0) =~= Seq::<Seq<SpanSpec>>::empty());
    while i < lines.len()
        invariant
            0 <= i <= lines@.len(),
            lv == lines_view(lines@),
            out@ == id_text(lv.take(i as int), id as nat),
        decreases lines@.len() - i,
    {
        let line = &lines[i];
        let ghost sv = spans_view(line@);
        let ghost start = out@;
        let mut k: usize = 0;
        assert(sv.take(0) =~= Seq::<SpanSpec>::empty());
        while k < line.len()
            invariant
                0 <= k <= line@.len(),
                sv == spans_view(line@),
                out@ == start + line_id_text(sv.take(k as int), id as nat),
            decreases line@.len() - k,
        {
            let ghost before = out@;
            let sp = &line[k];
            let is_id = match sp.span_id {
                Some(x) => x == id,
                None => false,
            };
            if is_id {
                append_str(&mut out, sp.content.as_str());
            }
            proof {
                assert(sv.take(k + 1).drop_last() == sv.take(k as int));
                assert(sv.take(k + 1).last() == sp.spec_view());
                assert(out@ =~= start + line_id_text(sv.take(k + 1), id as nat));
            }
            k += 1;
        }
        proof {
            assert(sv.take(sv.len() as int) == sv);
            assert(lv.take(i + 1).drop_last() == lv.take(i as int));
            assert(lv.take(i + 1).last() == sv);
        }
        i += 1;
    }
    assert(lv.take(lv.len() as int) == lv);
    out
}

/// The cursor for a click at cell `lx` of a filter field `width` cells
/// wide: the field is scrolled to keep the cursor visible, the click lands
/// on that column of the text. `None` when the cell sums exceed 16 bits.
pub open spec fn click_cursor(t: Seq<char>, cursor: usize, width: u16, lx: u16) -> Option<int> {
    let hs: int = if width == 0 { 0 } else { viewport_offset(t, cursor as int, width as int) };
    if width != 0 && text_width(prefix(t, cursor as int)) > u16::MAX {
        None
    } else if hs + lx > u16::MAX {
        None
    } else if !column_fits(t, hs + lx) {
        None
    } else {
        Some(column_cursor(t, hs + lx))
    }
}

/// The cursor for a click in the filter field (see [`click_cursor`]).
pub fn filter_click_cursor(text: &str, cursor: usize, width: u16, lx: u16) -> (r: Option<usize>)
    ensures
        match r {
            Some(c) => click_cursor(text@, cursor, width, lx) == Some(c as int),
            None => click_cursor(text@, cursor, width, lx) is None,
        },
{
    if width != 0 {
        if filter_cursor_offset_checked(text, cursor).is_none() {
            return None;
        }
    }
    let hs = crate::ui::filter_horizontal_scroll(text, cursor, width);
    let col = hs as u32 + lx as u32;
    if col > 65535 {
        return None;
    }
    let col = col as u16;
    if !column_fits_exec(text, col) {
        return None;
    }
    Some(filter_cursor_for_column(text, col))
}

/// The link under a click or hover: a value span in the details with a
/// key path whose first part is not an excluded field. Its path and
/// identifier. (Spans whose widths overflow 16 bits are not looked at.)
pub open spec fn mouse_target(app: &AppState, column: u16, row: u16) -> Option<(Seq<char>, usize)> {
    if !details_hit_fits(app, column, row) {
        None
    } else {
        match details_hit(app, column, row) {
            Some((y, k)) => {
                let sp = wrapped_line(app, y)[k];
                match sp.key_context {
                    Some(p) => match sp.span_id {
                        Some(id) => if !excluded_field(first_part(p)) { Some((p, id as usize)) } else { None },
                        None => None,
                    },
                    None => None,
                }
            },
            None => None,
        }
    }
}

/// The identifier of the hovered link.
pub open spec fn hover_of(target: Option<(Seq<char>, usize)>) -> Option<usize> {
    match target {
        Some((_, id)) => Some(id),
        None => None,
    }
}

/// The list selection after `n` wheel steps.
pub open spec fn list_steps(l: ListSelection, n: nat, down: bool) -> ListSelection
    decreases n,
{
    if n == 0 {
        l
    } else {
        let l1 = list_steps(l, (n - 1) as nat, down);
        if down { l1.after_next() } else { l1.after_previous() }
    }
}

/// A wheel step over the list moves its selection, over the details scrolls them.
pub open spec fn after_wheel(u: UiView, pane: Option<FocusPane>, kind: AppMouseKind) -> UiView {
    let down = kind == AppMouseKind::ScrollDown;
    if kind == AppMouseKind::ScrollUp || kind == AppMouseKind::ScrollDown {
        match pane {
            Some(FocusPane::List) => if u.filtered.len() > 0 {
                ui_refreshed(crate::app_core::state::ui_clamp(UiView { list: list_steps(u.list, SCROLL_LINES as nat, down), ..u }))
            } else {
                u
            },
            Some(FocusPane::Details) => ui_scroll(u, with_y(u.scroll, if down {
                sat_add(u.scroll.offset.y, SCROLL_LINES)
            } else {
                sat_sub(u.scroll.offset.y, SCROLL_LINES)
            })),
            _ => u,
        }
    } else {
        u
    }
}

/// The row of the list a click selects, when it selects one.
pub open spec fn clicked_row(u: UiView, app: &AppState, column: u16, row: u16, pane: Option<FocusPane>) -> Option<usize> {
    if pane == Some(FocusPane::List) && u.filtered.len() > 0 {
        match app.list_content_area {
            Some(ca) => if ca.spec_contains(column, row) && row - ca.y < ca.height {
                let r = u.list.offset + (row - ca.y);
                Some(if r < u.filtered.len() - 1 { r as usize } else { (u.filtered.len() - 1) as usize })
            } else {
                None
            },
            None => None,
        }
    } else {
        None
    }
}

/// A click on a list row selects it (refreshing the details) unless it is selected.
pub open spec fn after_list_click(u: UiView, clicked: Option<usize>) -> UiView {
    match clicked {
        Some(r) => if u.list.selected != Some(r) { ui_select(u, r) } else { u },
        None => u,
    }
}

/// The cursor a click in the filter text places, when it places one.
pub open spec fn clicked_cursor(u: UiView, app: &AppState, column: u16, row: u16, pane: Option<FocusPane>) -> Option<int> {
    if pane == Some(FocusPane::Filter) {
        match app.filter_input_area {
            Some(ia) => if ia.spec_contains(column, row) {
                click_cursor(u.filter, u.cursor, ia.width, (column - ia.x) as u16)
            } else {
                None
            },
            None => None,
        }
    } else {
        None
    }
}

/// The filter a click on a link sets: Ctrl-click looks the value up by id
/// (`i:'value'`); a plain click adds `path:'value'` to the trimmed filter.
pub open spec fn link_filter(u: UiView, lines: Seq<Seq<SpanSpec>>, ctrl: bool, path: Seq<char>, id: usize) -> Seq<char> {
    let clean = trim(id_text(lines, id as nat));
    let q = quoted_term(click_value(clean, json_string_literal(clean)));
    if ctrl {
        "i:"@ + q
    } else {
        let cur = trim(u.filter);
        if cur.len() == 0 {
            path + ":"@ + q
        } else {
            cur + " "@ + path + ":"@ + q
        }
    }
}

/// A click on a link filters by its value and focuses the details (Ctrl)
/// or the filter.
pub open spec fn after_link_click(u: UiView, app: &AppState, lines: Seq<Seq<SpanSpec>>, ctrl: bool, target: Option<(Seq<char>, usize)>) -> UiView {
    match target {
        Some((path, id)) => {
            let f = link_filter(u, lines, ctrl, path, id);
            let u1 = ui_refilter(UiView { filter: f, cursor: f.len() as usize, ..u }, app.indexed_items@, app.search_index);
            ui_focus(u1, if ctrl { FocusPane::Details } else { FocusPane::Filter })
        },
        None => u,
    }
}

/// The state before the list-click step of a left click: the pane under
/// the pointer focused.
pub open spec fn focused_for_click(u: UiView, app: &AppState, e: AppMouseEvent) -> UiView {
    let pane = spec_pane_at(app, e.column, e.row);
    let u2 = after_wheel(u, pane, e.kind);
    match pane {
        Some(p) => ui_focus(u2, p),
        None => u2,
    }
}

/// The rendered details a click on a link reads its value from: those
/// shown before the click, or, when the click also selected a list row,
/// those of the newly selected item (kept when it is the item shown).
pub open spec fn lines_at_click(u: UiView, app: &AppState, e: AppMouseEvent) -> Seq<Seq<SpanSpec>> {
    let a = focused_for_click(u, app, e);
    let pane = spec_pane_at(app, e.column, e.row);
    match clicked_row(a, app, e.column, e.row, pane) {
        Some(r) => if a.list.selected != Some(r) {
            let sel = crate::app_core::state::selected_item_index(a.list.selected_as(Some(r)), a.filtered);
            if app.cached_details_item_idx == sel && sel is Some {
                lines_view(app.details_annotated@)
            } else {
                crate::app_core::state::details_content(app.indexed_items@, sel, app.theme)
            }
        } else {
            lines_view(app.details_annotated@)
        },
        None => lines_view(app.details_annotated@),
    }
}

/// Whether a left click selects another list row.
pub open spec fn click_selects_row(u: UiView, app: &AppState, e: AppMouseEvent) -> bool {
    let a = focused_for_click(u, app, e);
    let pane = spec_pane_at(app, e.column, e.row);
    &&& e.kind == AppMouseKind::LeftDown
    &&& clicked_row(a, app, e.column, e.row, pane) matches Some(r)
    &&& a.list.selected != Some(r)
}

/// Whether a mouse event moves the list selection and refreshes the details
/// for it (a wheel step over a non-empty list, or a click selecting another row).
pub open spec fn mouse_moves_list(u: UiView, app: &AppState, e: AppMouseEvent) -> bool {
    let pane = spec_pane_at(app, e.column, e.row);
    ||| ((e.kind == AppMouseKind::ScrollUp || e.kind == AppMouseKind::ScrollDown) && pane == Some(FocusPane::List) && u.filtered.len() > 0)
    ||| click_selects_row(u, app, e)
}

/// Whether a mouse event turns a link into a filter.
pub open spec fn mouse_refilters(app: &AppState, e: AppMouseEvent) -> bool {
    e.kind == AppMouseKind::LeftDown && mouse_target(app, e.column, e.row) is Some
}

/// Whether a mouse event changes what is shown.
pub open spec fn mouse_transitions(u: UiView, app: &AppState, e: AppMouseEvent) -> bool {
    let pane = spec_pane_at(app, e.column, e.row);
    let target = mouse_target(app, e.column, e.row);
    let hover = hover_of(target);
    let u1 = if e.kind == AppMouseKind::Move && u.hovered != hover { UiView { hovered: hover, ..u } } else { u };
    let u2 = after_wheel(u1, pane, e.kind);
    let a = focused_for_click(u1, app, e);
    let b = after_list_click(a, clicked_row(a, app, e.column, e.row, pane));
    ||| (e.kind == AppMouseKind::Move && u.hovered != hover)
    ||| ((e.kind == AppMouseKind::ScrollUp || e.kind == AppMouseKind::ScrollDown) && ((pane == Some(FocusPane::List) && u.filtered.len() > 0) || pane == Some(FocusPane::Details)))
    ||| (e.kind == AppMouseKind::LeftDown && (
        (pane is Some && (a.focus != u2.focus || a.mode != u2.mode))
        || click_selects_row(u1, app, e)
        || (clicked_cursor(b, app, e.column, e.row, pane) matches Some(nc) && nc != b.cursor)
        || target is Some))
}

/// The details after two refreshes: the item now selected is shown, either
/// rendered anew (its wrapped lines dropped) or kept from before.
pub open spec fn refreshed_loose(before: &AppState, after: &AppState) -> bool {
    let sel = crate::app_core::state::selected_item_index(after.list_state, after.filtered_indices@);
    &&& after.cached_details_item_idx == sel
    &&& ((lines_view(after.details_annotated@) == crate::app_core::state::details_content(after.indexed_items@, sel, after.theme)
        && after.details_wrapped_annotated@.len() == 0 && after.details_wrapped_width == 0)
        || (after.same_details(before) && before.cached_details_item_idx == sel && sel is Some))
}

/// The effect of a mouse event on the rest of the state: the setting is
/// kept, the list entries are rebuilt when the list is recomputed, and the
/// details are refreshed when the selection or the list changes.
pub open spec fn mouse_effects(before: &AppState, after: &AppState, moves: bool, refilters: bool) -> bool {
    &&& after.same_setting(before)
    &&& if refilters { display_fresh(after) } else { after.same_display(before) }
    &&& if moves && refilters {
        refreshed_loose(before, after)
    } else if moves || refilters {
        refreshed(before, after)
    } else {
        after.same_details(before)
    }
}

/// The effect of a mouse event on the interactive state: a move updates the
/// hovered link, a wheel step scrolls the pane under the pointer, a click
/// focuses the pane under it, selects a clicked list row, places the filter
/// cursor at a clicked column, and turns a clicked link into a filter.
pub open spec fn mouse_ui(u: UiView, app: &AppState, e: AppMouseEvent) -> UiView {
    let pane = spec_pane_at(app, e.column, e.row);
    let target = mouse_target(app, e.column, e.row);
    let hover = hover_of(target);
    let u1 = if e.kind == AppMouseKind::Move && u.hovered != hover { UiView { hovered: hover, ..u } } else { u };
    let u2 = after_wheel(u1, pane, e.kind);
    if e.kind == AppMouseKind::LeftDown {
        let a = match pane {
            Some(p) => ui_focus(u2, p),
            None => u2,
        };
        let b = after_list_click(a, clicked_row(a, app, e.column, e.row, pane));
        let c = match clicked_cursor(b, app, e.column, e.row, pane) {
            Some(nc) => UiView { cursor: nc as usize, ..b },
            None => b,
        };
        after_link_click(c, app, lines_at_click(u1, app, e), e.ctrl, target)
    } else {
        u2
    }
}

/// The text before the first `.` of a key path.
fn first_part_str(p: &str) -> (out: String)
    ensures
        out@ == first_part(p@),
{
    let cs = chars_of(p);
    let k = crate::text::find_char_from(cs.as_slice(), '.', 0);
    assert(cs@.skip(0) == cs@);
    string_from_range(cs.as_slice(), 0, k)
}

fn opt_eq(a: Option<usize>, b: Option<usize>) -> (r: bool)
    ensures
        r == (a == b),
{
    match (a, b) {
        (Some(x), Some(y)) => x == y,
        (None, None) => true,
        _ => false,
    }
}

/// The link under `(column, row)`, if any (see [`mouse_target`]).
fn find_target(app: &AppState, column: u16, row: u16) -> (r: Option<(String, usize)>)
    requires
        details_cell_fits(app, column, row),
    ensures
        match mouse_target(app, column, row) {
            Some((p, id)) => r matches Some((q, i)) && q@ == p && i == id,
            None => r is None,
        },
{
    if !hit_test_fits(app, column, row) {
        return None;
    }
    match hit_test_details(app, column, row) {
        Some(span) => {
            proof {
                let (y, k) = details_hit(app, column, row)->Some_0;
                let (y2, x2) = crate::ui::details_cell(app, column, row)->Some_0;
                crate::ui::lemma_hit_from_bounds(wrapped_line(app, y), 0, 0, x2);
                assert(*span == app.details_wrapped_annotated@[y]@[k]);
                assert(wrapped_line(app, y)[k] == span.spec_view());
            }
            match &span.key_context {
                Some(path) => match span.span_id {
                    Some(id) => {
                        let first = first_part_str(path.as_str());
                        if !is_excluded_field(first.as_str()) {
                            Some((path.clone(), id))
                        } else {
                            None
                        }
                    },
                    None => None,
                },
                None => None,
            }
        },
        None => None,
    }
}

/// The view of an optional link.
pub open spec fn target_view(t: Option<(String, usize)>) -> Option<(Seq<char>, usize)> {
    match t {
        Some((p, id)) => Some((p@, id)),
        None => None,
    }
}

fn mouse_hover(app: &mut AppState, kind: AppMouseKind, new_hover: Option<usize>) -> (changed: bool)
    requires
        old(app).wf(),
    ensures
        changed == (kind == AppMouseKind::Move && old(app).hovered_span_id != new_hover),
        final(app).ui() == (if changed { UiView { hovered: new_hover, ..old(app).ui() } } else { old(app).ui() }),
        keeps(&*old(app), &*final(app)),
        final(app).wf(),
{
    if kind == AppMouseKind::Move && !opt_eq(app.hovered_span_id, new_hover) {
        app.hovered_span_id = new_hover;
        true
    } else {
        false
    }
}

fn mouse_wheel(app: &mut AppState, pane: Option<FocusPane>, kind: AppMouseKind) -> (changed: bool)
    requires
        old(app).wf(),
    ensures
        final(app).ui() == after_wheel(old(app).ui(), pane, kind),
        changed == ((kind == AppMouseKind::ScrollUp || kind == AppMouseKind::ScrollDown) && ((pane == Some(FocusPane::List) && old(app).filtered_indices@.len() > 0) || pane == Some(FocusPane::Details))),
        if (kind == AppMouseKind::ScrollUp || kind == AppMouseKind::ScrollDown) && pane == Some(FocusPane::List) && old(app).filtered_indices@.len() > 0 {
            final(app).same_setting(&*old(app)) && final(app).same_display(&*old(app)) && refreshed(&*old(app), &*final(app))
        } else {
            keeps(&*old(app), &*final(app))
        },
        final(app).wf(),
{
    if !(kind == AppMouseKind::ScrollUp || kind == AppMouseKind::ScrollDown) {
        return false;
    }
    let down = kind == AppMouseKind::ScrollDown;
    let on_list = match pane {
        Some(FocusPane::List) => true,
        _ => false,
    };
    let on_details = match pane {
        Some(FocusPane::Details) => true,
        _ => false,
    };
    if on_list {
        if app.filtered_indices.len() > 0 {
            let ghost app1 = *app;
            let mut k: u16 = 0;
            while k < SCROLL_LINES
                invariant
                    k <= SCROLL_LINES,
                    app.list_state == list_steps(app1.list_state, k as nat, down),
                    app.ui() == (UiView { list: app.list_state, ..app1.ui() }),
                    keeps(&app1, &*app),
                    app.wf_base(),
                decreases SCROLL_LINES - k,
            {
                if down {
                    app.list_state.select_next();
                } else {
                    app.list_state.select_previous();
                }
                k += 1;
            }
            app.clamp_selection();
            app.refresh_details();
            return true;
        }
        false
    } else if on_details {
        app.scroll_details_by_lines(SCROLL_LINES, down);
        true
    } else {
        false
    }
}

fn click_focus(app: &mut AppState, pane: Option<FocusPane>) -> (changed: bool)
    requires
        old(app).wf(),
    ensures
        final(app).ui() == (match pane {
            Some(p) => ui_focus(old(app).ui(), p),
            None => old(app).ui(),
        }),
        changed == (pane is Some && (final(app).focused_pane != old(app).focused_pane || final(app).input_mode != old(app).input_mode)),
        keeps(&*old(app), &*final(app)),
        final(app).wf(),
{
    if let Some(p) = pane {
        let previous_focus = app.focused_pane;
        let previous_mode = app.input_mode;
        app.focus_pane(p);
        app.focused_pane != previous_focus || app.input_mode != previous_mode
    } else {
        false
    }
}

fn click_list(app: &mut AppState, column: u16, row: u16, pane: Option<FocusPane>) -> (changed: bool)
    requires
        old(app).wf(),
    ensures
        final(app).ui() == after_list_click(old(app).ui(), clicked_row(old(app).ui(), &*old(app), column, row, pane)),
        changed == (clicked_row(old(app).ui(), &*old(app), column, row, pane) matches Some(r) && old(app).list_state.selected != Some(r)),
        if changed {
            final(app).same_setting(&*old(app)) && final(app).same_display(&*old(app)) && refreshed(&*old(app), &*final(app))
        } else {
            keeps(&*old(app), &*final(app))
        },
        final(app).wf(),
{
    let on_list = match pane {
        Some(FocusPane::List) => true,
        _ => false,
    };
    if on_list && app.filtered_indices.len() > 0 {
        if let Some(ca) = app.list_content_area {
            if ca.contains(column, row) {
                let list_row = row - ca.y;
                if list_row < ca.height {
                    let top = app.list_state.offset();
                    let len = app.filtered_indices.len();
                    let sum = top.saturating_add(list_row as usize);
                    let clicked = if sum < len - 1 { sum } else { len - 1 };
                    if !opt_eq(app.list_state.selected(), Some(clicked)) {
                        app.list_state.select(Some(clicked));
                        app.refresh_details();
                        return true;
                    }
                }
            }
        }
    }
    false
}

fn click_filter(app: &mut AppState, column: u16, row: u16, pane: Option<FocusPane>) -> (changed: bool)
    requires
        old(app).wf(),
    ensures
        final(app).ui() == (match clicked_cursor(old(app).ui(), &*old(app), column, row, pane) {
            Some(nc) => UiView { cursor: nc as usize, ..old(app).ui() },
            None => old(app).ui(),
        }),
        changed == (clicked_cursor(old(app).ui(), &*old(app), column, row, pane) matches Some(nc) && nc != old(app).filter_cursor),
        keeps(&*old(app), &*final(app)),
        final(app).wf(),
{
    let on_filter = match pane {
        Some(FocusPane::Filter) => true,
        _ => false,
    };
    if on_filter {
        if let Some(ia) = app.filter_input_area {
            if ia.contains(column, row) {
                let local_x = column - ia.x;
                match filter_click_cursor(app.filter_text.as_str(), app.filter_cursor, ia.width, local_x) {
                    Some(new_cursor) => {
                        proof {
                            crate::ui::lemma_column_cursor_bounds(app.filter_text@, (new_cursor as int));
                        }
                        if new_cursor != app.filter_cursor {
                            app.filter_cursor = new_cursor;
                            return true;
                        }
                    },
                    None => {},
                }
            }
        }
    }
    false
}

fn click_link(app: &mut AppState, target: Option<(String, usize)>, ctrl: bool)
    requires
        old(app).wf(),
        target is Some,
    ensures
        final(app).ui() == after_link_click(old(app).ui(), &*old(app), lines_view(old(app).details_annotated@), ctrl, target_view(target)),
        final(app).same_setting(&*old(app)),
        display_fresh(&*final(app)),
        refreshed(&*old(app), &*final(app)),
        final(app).wf(),
{
    if let Some((path, id)) = target {
        let full = collect_id_text(&app.details_annotated, id);
        let clean = trim_str(full.as_str());
        let parsed = parse_json_string(clean.as_str());
        let value = click_filter_value(clean.as_str(), parsed);
        let new_filter = if ctrl {
            let mut f = String::new();
            append_str(&mut f, "i:");
            append_str(&mut f, value.as_str());
            f
        } else {
            let current = trim_str(app.filter_text.as_str());
            let mut f = String::new();
            if current.as_str().is_empty() {
                append_str(&mut f, path.as_str());
            } else {
                append_str(&mut f, current.as_str());
                append_str(&mut f, " ");
                append_str(&mut f, path.as_str());
            }
            append_str(&mut f, ":");
            append_str(&mut f, value.as_str());
            f
        };
        let count = chars_of(new_filter.as_str()).len();
        app.filter_cursor = 0;
        app.filter_text = new_filter;
        app.filter_cursor = count;
        let ghost mid = *app;
        assert(mid.same_details(&*old(app)));
        app.update_filter();
        let ghost upd = *app;
        if ctrl {
            app.focus_pane(FocusPane::Details);
        } else {
            app.focus_pane(FocusPane::Filter);
        }
        assert(app.same_details(&upd));
        assert(refreshed(&mid, &upd));
        assert(mid.cached_details_item_idx == old(app).cached_details_item_idx);
        assert(app.list_state == upd.list_state);
        assert(app.filtered_indices@ == upd.filtered_indices@);
        assert(app.indexed_items@ == upd.indexed_items@);
        assert(app.theme == upd.theme);
        proof {
            let sel = crate::app_core::state::selected_item_index(app.list_state, app.filtered_indices@);
            assert(sel == crate::app_core::state::selected_item_index(upd.list_state, upd.filtered_indices@));
            if old(app).cached_details_item_idx == sel && sel is Some {
                assert(upd.same_details(&mid));
                assert(app.same_details(&*old(app)));
            } else {
                assert(upd.cached_details_item_idx == sel);
                assert(app.cached_details_item_idx == sel);
                assert(lines_view(app.details_annotated@) == lines_view(upd.details_annotated@));
                assert(lines_view(app.details_wrapped_annotated@).len() == app.details_wrapped_annotated@.len());
                assert(lines_view(upd.details_wrapped_annotated@).len() == upd.details_wrapped_annotated@.len());
            }
        }
        assert(refreshed(&*old(app), &*app));
    }
}

/// Details refreshed into `c` from `b` are refreshed from `a` when `b`
/// shows what `a` shows, and stay so in `d` when `d` shows what `c` shows
/// for the same selection.
proof fn lemma_refreshed_transport(a: &AppState, b: &AppState, c: &AppState, d: &AppState)
    requires
        refreshed(b, c),
        b.same_details(a),
        d.same_details(c),
        d.list_state == c.list_state,
        d.filtered_indices@ == c.filtered_indices@,
        d.indexed_items@ == c.indexed_items@,
        d.theme == c.theme,
    ensures
        refreshed(a, d),
{
    assert(lines_view(d.details_wrapped_annotated@).len() == d.details_wrapped_annotated@.len());
    assert(lines_view(c.details_wrapped_annotated@).len() == c.details_wrapped_annotated@.len());
}

/// Two refreshes in a row leave the details of the selected item shown.
proof fn lemma_refreshed_twice(a: &AppState, b: &AppState, c: &AppState, d: &AppState)
    requires
        refreshed(a, b),
        c.same_details(b),
        c.same_setting(b),
        refreshed(c, d),
        d.same_setting(c),
    ensures
        refreshed_loose(a, d),
{
    assert(lines_view(d.details_wrapped_annotated@).len() == d.details_wrapped_annotated@.len());
    assert(lines_view(b.details_wrapped_annotated@).len() == b.details_wrapped_annotated@.len());
    assert(lines_view(c.details_wrapped_annotated@).len() == c.details_wrapped_annotated@.len());
}

/// Handles a mouse event in cell coordinates (see [`mouse_ui`]) and
/// returns whether what is shown changed.
#[verifier::rlimit(100)]
pub fn handle_mouse_event(app: &mut AppState, event: AppMouseEvent) -> (transitioned: bool)
    requires
        old(app).wf(),
        details_cell_fits(&*old(app), event.column, event.row),
    ensures
        final(app).ui() == mouse_ui(old(app).ui(), &*old(app), event),
        transitioned == mouse_transitions(old(app).ui(), &*old(app), event),
        mouse_effects(&*old(app), &*final(app), mouse_moves_list(old(app).ui(), &*old(app), event), mouse_refilters(&*old(app), event)),
        final(app).wf(),
{
    let column = event.column;
    let row = event.row;
    let pane = pane_at(app, column, row);
    let target = find_target(app, column, row);
    let new_hover = match &target {
        Some((_, id)) => Some(*id),
        None => None,
    };
    let ghost app0 = *app;
    let hovered = mouse_hover(app, event.kind, new_hover);
    let ghost app1 = *app;
    let wheeled = mouse_wheel(app, pane, event.kind);
    let ghost app2 = *app;
    if event.kind != AppMouseKind::LeftDown {
        proof {
            if mouse_moves_list(app0.ui(), &app0, event) {
                lemma_refreshed_transport(&app0, &app1, &app2, &app2);
            }
        }
        return hovered || wheeled;
    }
    let focused = click_focus(app, pane);
    let ghost app3 = *app;
    let listed = click_list(app, column, row, pane);
    let ghost app4 = *app;
    let placed = click_filter(app, column, row, pane);
    let ghost app5 = *app;
    let linked = target.is_some();
    if linked {
        click_link(app, target, event.ctrl);
    }
    proof {
        let ghost fin = *app;
        if listed && linked {
            lemma_refreshed_twice(&app3, &app4, &app5, &fin);
        } else if listed {
            lemma_refreshed_transport(&app0, &app3, &app4, &fin);
        } else if linked {
            lemma_refreshed_transport(&app0, &app5, &fin, &fin);
        }
    }
    hovered || wheeled || focused || listed || placed || linked
}

} // verus!
