//! The application state and the operations the reducer composes: filter
//! editing, focus, list selection, details scrolling and refreshing.
use vstd::prelude::*;
use vstd::hash_set::StringHashSet;

use crate::app_core::layout::{ListSelection, Rect, ScrollState, scroll_origin, with_y, sat_add, sat_sub};
use crate::highlight::{
    AnnotatedSpan, JsonSpanKind, SpanSpec, highlight_json_annotated, highlighted, lines_view, span,
};
use crate::matcher::{find_matches, matching, lemma_matching_in_range};
use crate::json::{pretty_json, pretty_json_text};
use crate::model::IndexedItem;
use crate::search_index::{SearchIndex, indexes, strictly_sorted};
use crate::text::{chars_of, is_whitespace, char_is_whitespace};
use crate::theme::{ThemeConfig, plain_style};
use crate::ui::{display_name_for_item, spec_display_name};

verus! {

/// Whether keys edit the filter or navigate.
#[derive(Debug, Clone, Copy, PartialEq, Eq, Structural)]
pub enum InputMode {
    /// Navigation.
    Normal,
    /// Typing into the filter.
    Filtering,
}

/// The pane that has the keyboard focus.
#[derive(Debug, Clone, Copy, PartialEq, Eq, Structural)]
pub enum FocusPane {
    List,
    Details,
    Filter,
}

/// An entry of the version picker.
#[derive(Debug, Clone)]
pub struct VersionEntry {
    pub label: String,
    pub version: String,
    pub detail: Option<String>,
}

/// Work the runtime performs after the reducer returns.
#[derive(Debug, Clone)]
pub enum AppAction {
    OpenVersionPicker,
    SwitchVersion(String),
    ReloadSource,
}

/// The mathematical content of an [`AppAction`].
pub enum ActionSpec {
    OpenVersionPicker,
    SwitchVersion(Seq<char>),
    ReloadSource,
}

/// The view of an optional action.
pub open spec fn action_view(a: Option<AppAction>) -> Option<ActionSpec> {
    match a {
        Some(AppAction::OpenVersionPicker) => Some(ActionSpec::OpenVersionPicker),
        Some(AppAction::SwitchVersion(v)) => Some(ActionSpec::SwitchVersion(v@)),
        Some(AppAction::ReloadSource) => Some(ActionSpec::ReloadSource),
        None => None,
    }
}

/// The application state.
pub struct AppState {
    /// All loaded items.
    pub indexed_items: Vec<IndexedItem>,
    /// Search index over `indexed_items`.
    pub search_index: SearchIndex,
    /// The non-empty ids of the items.
    pub id_set: StringHashSet,
    /// Indices of the items that match the filter, in increasing order.
    pub filtered_indices: Vec<usize>,
    /// Selection and scroll offset of the item list.
    pub list_state: ListSelection,
    /// The filter text.
    pub filter_text: String,
    /// Cursor position in the filter, in characters.
    pub filter_cursor: usize,
    /// Current input mode.
    pub input_mode: InputMode,
    /// The focused pane.
    pub focused_pane: FocusPane,
    /// Colors.
    pub theme: ThemeConfig,
    /// Resolved game version label.
    pub game_version: String,
    /// Requested game version key (stable, nightly or a build number).
    pub game_version_key: String,
    /// Version of the application.
    pub app_version: String,
    /// Whether downloads are forced when switching versions.
    pub force_download: bool,
    /// Number of items in the full dataset.
    pub total_items: usize,
    /// Scroll state of the details pane.
    pub details_scroll_state: ScrollState,
    /// Highlighted lines of the selected item.
    pub details_annotated: Vec<Vec<AnnotatedSpan>>,
    /// `details_annotated` wrapped to `details_wrapped_width` (empty until the pane is drawn).
    pub details_wrapped_annotated: Vec<Vec<AnnotatedSpan>>,
    /// Width `details_wrapped_annotated` was wrapped to (0: not wrapped).
    pub details_wrapped_width: u16,
    /// Identifier of the value span under the mouse.
    pub hovered_span_id: Option<usize>,
    /// Screen region of the JSON text (set when drawn).
    pub details_content_area: Option<Rect>,
    /// Screen region of the item list pane, borders included.
    pub list_area: Option<Rect>,
    /// Screen region of the list rows.
    pub list_content_area: Option<Rect>,
    /// Screen region of the details pane, borders included.
    pub details_area: Option<Rect>,
    /// Screen region of the filter pane, borders included.
    pub filter_area: Option<Rect>,
    /// Screen region of the filter text.
    pub filter_input_area: Option<Rect>,
    /// Set when the application should exit.
    pub should_quit: bool,
    /// Whether the help overlay is shown.
    pub show_help: bool,
    /// Whether the version picker is shown.
    pub show_version_picker: bool,
    /// Entries of the version picker.
    pub version_entries: Vec<VersionEntry>,
    /// Selection of the version picker.
    pub version_list_state: ListSelection,
    /// Whether the progress modal is shown.
    pub show_progress: bool,
    /// Title of the progress modal.
    pub progress_title: String,
    /// Previous filter expressions, oldest first.
    pub filter_history: Vec<String>,
    /// Position in the history while browsing it.
    pub history_index: Option<usize>,
    /// The filter text saved when history browsing started.
    pub stashed_input: String,
    /// Action for the runtime to perform.
    pub pending_action: Option<AppAction>,
    /// Source directory, when the data comes from one.
    pub source_dir: Option<String>,
    /// Warnings from loading the source directory.
    pub source_warnings: Vec<String>,
    /// The item whose details are rendered.
    pub cached_details_item_idx: Option<usize>,
    /// Display name and type prefix of each filtered item, in list order.
    pub cached_display: Vec<(String, String)>,
}

/// The interactive part of the state, as values.
pub struct UiView {
    pub filter: Seq<char>,
    pub cursor: usize,
    pub filtered: Seq<usize>,
    pub list: ListSelection,
    pub mode: InputMode,
    pub focus: FocusPane,
    pub scroll: ScrollState,
    pub should_quit: bool,
    pub show_help: bool,
    pub show_version_picker: bool,
    pub version_list: ListSelection,
    pub history: Seq<Seq<char>>,
    pub history_index: Option<usize>,
    pub stashed: Seq<char>,
    pub pending: Option<ActionSpec>,
    pub hovered: Option<usize>,
}

/// The views of a vector of strings.
pub open spec fn strings_of(v: Seq<String>) -> Seq<Seq<char>> {
    v.map_values(|s: String| s@)
}

impl AppState {
    /// The interactive part of the state.
    pub open spec fn ui(&self) -> UiView {
        UiView {
            filter: self.filter_text@,
            cursor: self.filter_cursor,
            filtered: self.filtered_indices@,
            list: self.list_state,
            mode: self.input_mode,
            focus: self.focused_pane,
            scroll: self.details_scroll_state,
            should_quit: self.should_quit,
            show_help: self.show_help,
            show_version_picker: self.show_version_picker,
            version_list: self.version_list_state,
            history: strings_of(self.filter_history@),
            history_index: self.history_index,
            stashed: self.stashed_input@,
            pending: action_view(self.pending_action),
            hovered: self.hovered_span_id,
        }
    }

    /// What the state keeps while the interactive part changes: the data,
    /// the theme and versions, the screen regions, the version entries and
    /// the source settings.
    pub open spec fn same_setting(&self, other: &AppState) -> bool {
        &&& self.indexed_items@ == other.indexed_items@
        &&& self.search_index == other.search_index
        &&& self.id_set@ == other.id_set@
        &&& self.game_version@ == other.game_version@
        &&& self.game_version_key@ == other.game_version_key@
        &&& self.total_items == other.total_items
        &&& self.same_frame(other)
    }

    /// The theme, the application settings, the screen regions, the version
    /// entries, the progress modal and the source settings are unchanged.
    pub open spec fn same_frame(&self, other: &AppState) -> bool {
        &&& self.theme == other.theme
        &&& self.app_version@ == other.app_version@
        &&& self.force_download == other.force_download
        &&& self.details_content_area == other.details_content_area
        &&& self.list_area == other.list_area
        &&& self.list_content_area == other.list_content_area
        &&& self.details_area == other.details_area
        &&& self.filter_area == other.filter_area
        &&& self.filter_input_area == other.filter_input_area
        &&& self.version_entries@ == other.version_entries@
        &&& self.show_progress == other.show_progress
        &&& self.progress_title@ == other.progress_title@
        &&& self.source_dir == other.source_dir
        &&& self.source_warnings@ == other.source_warnings@
    }

    /// The rendered details are unchanged.
    pub open spec fn same_details(&self, other: &AppState) -> bool {
        &&& lines_view(self.details_annotated@) == lines_view(other.details_annotated@)
        &&& lines_view(self.details_wrapped_annotated@) == lines_view(other.details_wrapped_annotated@)
        &&& self.details_wrapped_width == other.details_wrapped_width
        &&& self.cached_details_item_idx == other.cached_details_item_idx
    }

    /// The cached list entries are unchanged.
    pub open spec fn same_display(&self, other: &AppState) -> bool {
        display_view(self.cached_display@) == display_view(other.cached_display@)
    }

    /// The state invariant: the index is well formed and indexes the items,
    /// the list rows refer to items, the cursor lies within the filter, a
    /// history position points into the history, a selection is the first
    /// row or a row of the list, and the item count and the list offset
    /// leave room for a page of rows in the index range.
    pub open spec fn wf(&self) -> bool {
        &&& self.wf_base()
        &&& (self.list_state.selected matches Some(s) ==> s == 0 || s < self.filtered_indices@.len())
    }

    /// The state invariant apart from the rule on the selection.
    pub open spec fn wf_base(&self) -> bool {
        &&& self.search_index.wf()
        &&& indexes(self.search_index, self.indexed_items@, self.indexed_items@.len() as int)
        &&& self.indexed_items@.len() < usize::MAX
        &&& forall|i: int| 0 <= i < self.filtered_indices@.len() ==> #[trigger] self.filtered_indices@[i] < self.indexed_items@.len()
        &&& self.filter_cursor <= self.filter_text@.len()
        &&& (self.history_index matches Some(i) ==> i < self.filter_history@.len())
        &&& self.filtered_indices@.len() < usize::MAX
        &&& self.list_state.offset < usize::MAX
    }
}

/// The views of the cached list entries.
pub open spec fn display_view(v: Seq<(String, String)>) -> Seq<(Seq<char>, Seq<char>)> {
    v.map_values(|e: (String, String)| (e.0@, e.1@))
}

/// The list entry of an item: its display name, and its type followed by a space.
pub open spec fn display_entry(item: IndexedItem) -> (Seq<char>, Seq<char>) {
    (spec_display_name(item.value, item.id@, item.item_type@), item.item_type@ + seq![' '])
}

/// The index into the items of the selected list row, when there is one.
pub open spec fn selected_item_index(list: ListSelection, filtered: Seq<usize>) -> Option<usize> {
    match list.selected {
        Some(s) => if s < filtered.len() { Some(filtered[s as int]) } else { None },
        None => None,
    }
}

/// A single line holding one plain span with `text`.
pub open spec fn message_lines(text: Seq<char>) -> Seq<Seq<SpanSpec>> {
    seq![seq![span(text, plain_style(), JsonSpanKind::Whitespace, None, None)]]
}

/// What the details pane shows for the item at `idx`: its highlighted
/// JSON as `serde_json` pretty-prints it, or a prompt when no item is
/// selected, or an error line where printing fails (or the text is too long
/// to number its spans).
pub open spec fn details_content(items: Seq<IndexedItem>, idx: Option<usize>, theme: ThemeConfig) -> Seq<Seq<SpanSpec>> {
    match idx {
        Some(i) => if i < items.len() {
            match pretty_json_text(items[i as int].value) {
                Some(pretty) => if pretty.len() + 1 < usize::MAX {
                    highlighted(pretty, theme.json_style)
                } else {
                    message_lines("Error formatting JSON"@)
                },
                None => message_lines("Error formatting JSON"@),
            }
        } else {
            message_lines("Select an item to view details"@)
        },
        None => message_lines("Select an item to view details"@),
    }
}

/// The details after a refresh of `before` into `after`: the same item is
/// still shown (its rendering is kept), or the item now selected is
/// rendered anew and the wrapped lines are dropped.
pub open spec fn refreshed(before: &AppState, after: &AppState) -> bool {
    let sel = selected_item_index(after.list_state, after.filtered_indices@);
    if before.cached_details_item_idx == sel && sel is Some {
        after.same_details(before)
    } else {
        &&& after.cached_details_item_idx == sel
        &&& lines_view(after.details_annotated@) == details_content(after.indexed_items@, sel, after.theme)
        &&& after.details_wrapped_annotated@.len() == 0
        &&& after.details_wrapped_width == 0
    }
}

/// The setting, the rendered details and the list entries are unchanged.
pub open spec fn keeps(before: &AppState, after: &AppState) -> bool {
    &&& after.same_setting(before)
    &&& after.same_details(before)
    &&& after.same_display(before)
}

/// `s` with `c` inserted before position `i`.
pub open spec fn insert_at(s: Seq<char>, i: int, c: char) -> Seq<char> {
    s.take(i) + seq![c] + s.skip(i)
}

/// The pane `p` focused: the filter pane types, the others navigate.
pub open spec fn ui_focus(u: UiView, p: FocusPane) -> UiView {
    UiView { focus: p, mode: if p == FocusPane::Filter { InputMode::Filtering } else { InputMode::Normal }, ..u }
}

/// The pane after `p` in the order filter, list, details.
pub open spec fn next_pane(p: FocusPane) -> FocusPane {
    match p {
        FocusPane::Filter => FocusPane::List,
        FocusPane::List => FocusPane::Details,
        FocusPane::Details => FocusPane::Filter,
    }
}

/// The pane before `p` in the order filter, list, details.
pub open spec fn prev_pane(p: FocusPane) -> FocusPane {
    match p {
        FocusPane::Filter => FocusPane::Details,
        FocusPane::List => FocusPane::Filter,
        FocusPane::Details => FocusPane::List,
    }
}

/// `c` typed at the cursor (at the end when the cursor lies past it).
pub open spec fn ui_add_char(u: UiView, c: char) -> UiView {
    let i = if u.cursor <= u.filter.len() { u.cursor as int } else { u.filter.len() as int };
    UiView { filter: insert_at(u.filter, i, c), cursor: (u.cursor + 1) as usize, ..u }
}

/// The character before the cursor deleted.
pub open spec fn ui_backspace(u: UiView) -> UiView {
    if u.cursor > 0 {
        let c = (u.cursor - 1) as usize;
        UiView { cursor: c, filter: if c < u.filter.len() { u.filter.remove(c as int) } else { u.filter }, ..u }
    } else {
        u
    }
}

/// The character at the cursor deleted.
pub open spec fn ui_delete(u: UiView) -> UiView {
    if u.cursor < u.filter.len() {
        UiView { filter: u.filter.remove(u.cursor as int), ..u }
    } else {
        u
    }
}

/// The cursor one character left.
pub open spec fn ui_left(u: UiView) -> UiView {
    if u.cursor > 0 {
        UiView { cursor: (u.cursor - 1) as usize, ..u }
    } else {
        u
    }
}

/// The cursor one character right, not past the end.
pub open spec fn ui_right(u: UiView) -> UiView {
    if u.cursor < u.filter.len() {
        UiView { cursor: (u.cursor + 1) as usize, ..u }
    } else {
        u
    }
}

/// The cursor at the start.
pub open spec fn ui_start(u: UiView) -> UiView {
    UiView { cursor: 0, ..u }
}

/// The cursor at the end.
pub open spec fn ui_end(u: UiView) -> UiView {
    UiView { cursor: u.filter.len() as usize, ..u }
}

/// The filter emptied.
pub open spec fn ui_clear(u: UiView) -> UiView {
    UiView { filter: Seq::empty(), cursor: 0, ..u }
}

/// Position before the whitespace that ends at `i`.
pub open spec fn skip_back_ws(s: Seq<char>, i: int) -> int
    decreases i,
{
    if i > 0 && i <= s.len() && char_is_whitespace(s[i - 1]) {
        skip_back_ws(s, i - 1)
    } else {
        i
    }
}

/// Position before the non-whitespace run that ends at `i`.
pub open spec fn skip_back_word(s: Seq<char>, i: int) -> int
    decreases i,
{
    if i > 0 && i <= s.len() && !char_is_whitespace(s[i - 1]) {
        skip_back_word(s, i - 1)
    } else {
        i
    }
}

/// The word before the cursor deleted, with the whitespace after it.
pub open spec fn ui_delete_word(u: UiView) -> UiView {
    if u.cursor == 0 {
        u
    } else {
        let start = skip_back_word(u.filter, skip_back_ws(u.filter, u.cursor as int));
        UiView { filter: u.filter.take(start) + u.filter.skip(u.cursor as int), cursor: start as usize, ..u }
    }
}

/// `skip_back_ws` and `skip_back_word` move back within `0..=i`.
pub proof fn lemma_skip_back_bounds(s: Seq<char>, i: int)
    requires
        0 <= i <= s.len(),
    ensures
        0 <= skip_back_ws(s, i) <= i,
        0 <= skip_back_word(s, i) <= i,
    decreases i,
{
    if i > 0 {
        lemma_skip_back_bounds(s, i - 1);
    }
}

/// The details view reset to the top.
pub open spec fn ui_refreshed(u: UiView) -> UiView {
    UiView { scroll: scroll_origin(), ..u }
}

/// The selection kept within the list: none for an empty list, the last
/// row when it lies past the end.
pub open spec fn ui_clamp(u: UiView) -> UiView {
    let len = u.filtered.len();
    if len == 0 {
        UiView { list: u.list.selected_as(None), ..u }
    } else {
        match u.list.selected {
            Some(s) => if s >= len {
                UiView { list: u.list.selected_as(Some((len - 1) as usize)), ..u }
            } else {
                u
            },
            None => u,
        }
    }
}

/// The selection moved one row down (or up), kept within the list, and the
/// details refreshed.
pub open spec fn ui_move(u: UiView, down: bool) -> UiView {
    ui_refreshed(ui_clamp(UiView { list: if down { u.list.after_next() } else { u.list.after_previous() }, ..u }))
}

/// The list recomputed for the filter: the matching items, the first one
/// selected (none when there is none), and the details refreshed.
pub open spec fn ui_refilter(u: UiView, items: Seq<IndexedItem>, ix: SearchIndex) -> UiView {
    let f = matching(u.filter, items, ix);
    ui_refreshed(UiView { filtered: f, list: u.list.selected_as(if f.len() == 0 { None } else { Some(0) }), ..u })
}

/// The cached list entries are those of the filtered items.
pub open spec fn display_fresh(s: &AppState) -> bool {
    display_view(s.cached_display@) == s.filtered_indices@.map_values(
        |x: usize| display_entry(s.indexed_items@[x as int]),
    )
}

/// The non-empty ids of the items.
pub open spec fn ids_of(items: Seq<IndexedItem>) -> Set<Seq<char>> {
    Set::new(|k: Seq<char>| k.len() > 0 && exists|i: int| 0 <= i < items.len() && items[i].id@ == k)
}

/// A single line holding one plain span with `text`.
fn message(text: &str) -> (lines: Vec<Vec<AnnotatedSpan>>)
    ensures
        lines_view(lines@) == message_lines(text@),
{
    let sp = AnnotatedSpan {
        content: crate::model::owned(text),
        style: crate::theme::plain(),
        kind: JsonSpanKind::Whitespace,
        key_context: None,
        span_id: None,
    };
    let mut line: Vec<AnnotatedSpan> = Vec::new();
    line.push(sp);
    let mut lines: Vec<Vec<AnnotatedSpan>> = Vec::new();
    lines.push(line);
    assert(lines_view(lines@) =~= message_lines(text@)) by {
        assert(crate::highlight::spans_view(line@) =~= seq![sp.spec_view()]);
    }
    lines
}

impl AppState {
    /// The index into the items of the selected list row.
    pub fn selected_item_idx(&self) -> (r: Option<usize>)
        ensures
            r == selected_item_index(self.list_state, self.filtered_indices@),
    {
        match self.list_state.selected {
            Some(s) => if s < self.filtered_indices.len() {
                Some(self.filtered_indices[s])
            } else {
                None
            },
            None => None,
        }
    }

    /// The selected item, when the selected row refers to one.
    pub fn get_selected_item(&self) -> (r: Option<&IndexedItem>)
        ensures
            match selected_item_index(self.list_state, self.filtered_indices@) {
                Some(i) => if i < self.indexed_items@.len() {
                    r == Some(&self.indexed_items@[i as int])
                } else {
                    r is None
                },
                None => r is None,
            },
    {
        match self.selected_item_idx() {
            Some(i) => if i < self.indexed_items.len() {
                Some(&self.indexed_items[i])
            } else {
                None
            },
            None => None,
        }
    }

    /// Resets the details scroll and renders the selected item, unless that
    /// item is the one already rendered.
    pub fn refresh_details(&mut self)
        ensures
            final(self).ui() == (UiView { scroll: scroll_origin(), ..old(self).ui() }),
            final(self).same_setting(&*old(self)),
            final(self).same_display(&*old(self)),
            refreshed(&*old(self), &*final(self)),
            old(self).wf() ==> final(self).wf(),
    {
        let sel = self.selected_item_idx();
        self.details_scroll_state = ScrollState::new();
        let same = match (self.cached_details_item_idx, sel) {
            (Some(a), Some(b)) => a == b,
            _ => false,
        };
        if same {
            return;
        }
        self.cached_details_item_idx = sel;
        let lines = match sel {
            Some(i) => if i < self.indexed_items.len() {
                match pretty_json(&self.indexed_items[i].value) {
                    Some(pretty) => {
                        let n = chars_of(pretty.as_str()).len();
                        if n < usize::MAX - 1 {
                            highlight_json_annotated(pretty.as_str(), &self.theme.json_style)
                        } else {
                            message("Error formatting JSON")
                        }
                    },
                    None => message("Error formatting JSON"),
                }
            } else {
                message("Select an item to view details")
            },
            None => message("Select an item to view details"),
        };
        self.details_annotated = lines;
        self.details_wrapped_width = 0;
        self.details_wrapped_annotated = Vec::new();
    }
}

/// The characters `cs[..i]`, then `mid`, then `cs[j..]`.
fn splice(cs: &[char], i: usize, mid: &[char], j: usize) -> (out: String)
    requires
        i <= j <= cs@.len(),
    ensures
        out@ == cs@.take(i as int) + mid@ + cs@.skip(j as int),
{
    let mut out = crate::text::string_from_range(cs, 0, i);
    let m = crate::text::string_from_chars(mid);
    crate::text::append_str(&mut out, m.as_str());
    let t = crate::text::string_from_range(cs, j, cs.len());
    crate::text::append_str(&mut out, t.as_str());
    assert(cs@.subrange(0, i as int) == cs@.take(i as int));
    assert(cs@.subrange(j as int, cs@.len() as int) == cs@.skip(j as int));
    out
}

impl AppState {
    /// Focuses `pane`; the filter pane switches to typing, the others to navigation.
    pub fn focus_pane(&mut self, pane: FocusPane)
        ensures
            final(self).ui() == ui_focus(old(self).ui(), pane),
            keeps(&*old(self), &*final(self)),
            old(self).wf() ==> final(self).wf(),
    {
        self.focused_pane = pane;
        self.input_mode = match pane {
            FocusPane::Filter => InputMode::Filtering,
            _ => InputMode::Normal,
        };
    }

    /// Focuses the next pane (filter, list, details, then the filter again).
    pub fn focus_next_pane(&mut self)
        ensures
            final(self).ui() == ui_focus(old(self).ui(), next_pane(old(self).focused_pane)),
            keeps(&*old(self), &*final(self)),
            old(self).wf() ==> final(self).wf(),
    {
        let next = match self.focused_pane {
            FocusPane::Filter => FocusPane::List,
            FocusPane::List => FocusPane::Details,
            FocusPane::Details => FocusPane::Filter,
        };
        self.focus_pane(next);
    }

    /// Focuses the previous pane.
    pub fn focus_prev_pane(&mut self)
        ensures
            final(self).ui() == ui_focus(old(self).ui(), prev_pane(old(self).focused_pane)),
            keeps(&*old(self), &*final(self)),
            old(self).wf() ==> final(self).wf(),
    {
        let prev = match self.focused_pane {
            FocusPane::Filter => FocusPane::Details,
            FocusPane::List => FocusPane::Filter,
            FocusPane::Details => FocusPane::List,
        };
        self.focus_pane(prev);
    }

    /// Types `c` at the cursor.
    pub fn filter_add_char(&mut self, c: char)
        requires
            old(self).wf(),
            old(self).filter_cursor < usize::MAX,
        ensures
            final(self).ui() == ui_add_char(old(self).ui(), c),
            keeps(&*old(self), &*final(self)),
            final(self).wf(),
    {
        let cs = chars_of(self.filter_text.as_str());
        let i = if self.filter_cursor <= cs.len() { self.filter_cursor } else { cs.len() };
        let mid = [c];
        let t = splice(cs.as_slice(), i, &mid, i);
        assert(mid@ == seq![c]);
        self.filter_text = t;
        self.filter_cursor = self.filter_cursor + 1;
    }

    /// Deletes the character before the cursor.
    pub fn filter_backspace(&mut self)
        requires
            old(self).wf(),
        ensures
            final(self).ui() == ui_backspace(old(self).ui()),
            keeps(&*old(self), &*final(self)),
            final(self).wf(),
    {
        if self.filter_cursor > 0 {
            self.filter_cursor = self.filter_cursor - 1;
            let cs = chars_of(self.filter_text.as_str());
            if self.filter_cursor < cs.len() {
                let empty: [char; 0] = [];
                let t = splice(cs.as_slice(), self.filter_cursor, &empty, self.filter_cursor + 1);
                assert(cs@.take(self.filter_cursor as int) + empty@ + cs@.skip(self.filter_cursor + 1)
                    =~= cs@.remove(self.filter_cursor as int));
                self.filter_text = t;
            }
        }
    }

    /// Deletes the character at the cursor.
    pub fn filter_delete(&mut self)
        requires
            old(self).wf(),
        ensures
            final(self).ui() == ui_delete(old(self).ui()),
            keeps(&*old(self), &*final(self)),
            final(self).wf(),
    {
        let cs = chars_of(self.filter_text.as_str());
        if self.filter_cursor < cs.len() {
            let empty: [char; 0] = [];
            let t = splice(cs.as_slice(), self.filter_cursor, &empty, self.filter_cursor + 1);
            assert(cs@.take(self.filter_cursor as int) + empty@ + cs@.skip(self.filter_cursor + 1)
                =~= cs@.remove(self.filter_cursor as int));
            self.filter_text = t;
        }
    }

    /// Moves the cursor one character left.
    pub fn filter_move_cursor_left(&mut self)
        ensures
            final(self).ui() == ui_left(old(self).ui()),
            keeps(&*old(self), &*final(self)),
            old(self).wf() ==> final(self).wf(),
    {
        if self.filter_cursor > 0 {
            self.filter_cursor = self.filter_cursor - 1;
        }
    }

    /// Moves the cursor one character right, not past the end.
    pub fn filter_move_cursor_right(&mut self)
        ensures
            final(self).ui() == ui_right(old(self).ui()),
            keeps(&*old(self), &*final(self)),
            old(self).wf() ==> final(self).wf(),
    {
        let n = chars_of(self.filter_text.as_str()).len();
        if self.filter_cursor < n {
            self.filter_cursor = self.filter_cursor + 1;
        }
    }

    /// Moves the cursor to the start.
    pub fn filter_move_to_start(&mut self)
        ensures
            final(self).ui() == ui_start(old(self).ui()),
            keeps(&*old(self), &*final(self)),
            old(self).wf() ==> final(self).wf(),
    {
        self.filter_cursor = 0;
    }

    /// Moves the cursor to the end.
    pub fn filter_move_to_end(&mut self)
        ensures
            final(self).ui() == ui_end(old(self).ui()),
            keeps(&*old(self), &*final(self)),
            old(self).wf() ==> final(self).wf(),
    {
        self.filter_cursor = chars_of(self.filter_text.as_str()).len();
    }

    /// Empties the filter.
    pub fn filter_clear(&mut self)
        ensures
            final(self).ui() == ui_clear(old(self).ui()),
            keeps(&*old(self), &*final(self)),
            old(self).wf() ==> final(self).wf(),
    {
        self.filter_text = String::new();
        self.filter_cursor = 0;
    }

    /// Deletes the word before the cursor, with the whitespace after it.
    pub fn filter_delete_word(&mut self)
        requires
            old(self).wf(),
        ensures
            final(self).ui() == ui_delete_word(old(self).ui()),
            keeps(&*old(self), &*final(self)),
            final(self).wf(),
    {
        if self.filter_cursor == 0 {
            return;
        }
        let cs = chars_of(self.filter_text.as_str());
        let ghost s = cs@;
        let mut i = self.filter_cursor;
        while i > 0 && is_whitespace(cs[i - 1])
            invariant
                i <= self.filter_cursor <= s.len(),
                s == cs@,
                skip_back_ws(s, self.filter_cursor as int) == skip_back_ws(s, i as int),
            decreases i,
        {
            i -= 1;
        }
        let ghost after_ws = i as int;
        while i > 0 && !is_whitespace(cs[i - 1])
            invariant
                i <= after_ws <= s.len(),
                s == cs@,
                skip_back_word(s, after_ws) == skip_back_word(s, i as int),
            decreases i,
        {
            i -= 1;
        }
        let empty: [char; 0] = [];
        let t = splice(cs.as_slice(), i, &empty, self.filter_cursor);
        assert(empty@ =~= Seq::<char>::empty());
        assert(cs@.take(i as int) + empty@ + cs@.skip(self.filter_cursor as int)
            =~= cs@.take(i as int) + cs@.skip(self.filter_cursor as int));
        self.filter_text = t;
        self.filter_cursor = i;
    }
}

impl AppState {
    /// Keeps the selection within the list.
    pub fn clamp_selection(&mut self)
        ensures
            final(self).ui() == ui_clamp(old(self).ui()),
            keeps(&*old(self), &*final(self)),
            old(self).wf_base() ==> final(self).wf(),
    {
        let len = self.filtered_indices.len();
        if len == 0 {
            self.list_state.select(None);
            return;
        }
        if let Some(selected) = self.list_state.selected() {
            if selected >= len {
                self.list_state.select(Some(len - 1));
            }
        }
    }

    /// Moves the selection by one row, down for a non-negative `direction`
    /// and up otherwise, and refreshes the details.
    pub fn move_selection(&mut self, direction: i32)
        requires
            old(self).wf(),
        ensures
            final(self).ui() == ui_move(old(self).ui(), direction >= 0),
            final(self).same_setting(&*old(self)),
            final(self).same_display(&*old(self)),
            refreshed(&*old(self), &*final(self)),
            final(self).wf(),
    {
        if direction < 0 {
            self.list_state.select_previous();
        } else {
            self.list_state.select_next();
        }
        self.clamp_selection();
        self.refresh_details();
    }

    /// Scrolls the details up one row.
    pub fn scroll_details_up(&mut self)
        ensures
            final(self).ui() == (UiView { scroll: with_y(old(self).details_scroll_state, sat_sub(old(self).details_scroll_state.offset.y, 1)), ..old(self).ui() }),
            keeps(&*old(self), &*final(self)),
            old(self).wf() ==> final(self).wf(),
    {
        self.details_scroll_state.scroll_up();
    }

    /// Scrolls the details down one row.
    pub fn scroll_details_down(&mut self)
        ensures
            final(self).ui() == (UiView { scroll: with_y(old(self).details_scroll_state, sat_add(old(self).details_scroll_state.offset.y, 1)), ..old(self).ui() }),
            keeps(&*old(self), &*final(self)),
            old(self).wf() ==> final(self).wf(),
    {
        self.details_scroll_state.scroll_down();
    }

    /// Scrolls the details by `lines` rows, down or up.
    pub fn scroll_details_by_lines(&mut self, lines: u16, down: bool)
        ensures
            final(self).ui() == (UiView {
                scroll: with_y(
                    old(self).details_scroll_state,
                    if down {
                        sat_add(old(self).details_scroll_state.offset.y, lines)
                    } else {
                        sat_sub(old(self).details_scroll_state.offset.y, lines)
                    },
                ),
                ..old(self).ui()
            }),
            keeps(&*old(self), &*final(self)),
            old(self).wf() ==> final(self).wf(),
    {
        let ghost y0 = self.details_scroll_state.offset.y;
        let mut k: u16 = 0;
        while k < lines
            invariant
                0 <= k <= lines,
                self.ui() == (UiView {
                    scroll: with_y(
                        old(self).details_scroll_state,
                        if down { sat_add(y0, k) } else { sat_sub(y0, k) },
                    ),
                    ..old(self).ui()
                }),
                keeps(&*old(self), &*self),
                y0 == old(self).details_scroll_state.offset.y,
                old(self).wf() ==> self.wf(),
            decreases lines - k,
        {
            if down {
                self.scroll_details_down();
            } else {
                self.scroll_details_up();
            }
            k += 1;
        }
    }

    /// Rebuilds the cached list entries from the filtered items.
    pub fn rebuild_display_cache(&mut self)
        requires
            forall|i: int| 0 <= i < old(self).filtered_indices@.len() ==> #[trigger] old(self).filtered_indices@[i] < old(self).indexed_items@.len(),
        ensures
            final(self).ui() == old(self).ui(),
            final(self).same_setting(&*old(self)),
            final(self).same_details(&*old(self)),
            display_fresh(&*final(self)),
            old(self).wf() ==> final(self).wf(),
    {
        let mut entries: Vec<(String, String)> = Vec::new();
        let mut i: usize = 0;
        while i < self.filtered_indices.len()
            invariant
                0 <= i <= self.filtered_indices@.len(),
                forall|j: int| 0 <= j < self.filtered_indices@.len() ==> #[trigger] self.filtered_indices@[j] < self.indexed_items@.len(),
                display_view(entries@) == self.filtered_indices@.take(i as int).map_values(
                    |x: usize| display_entry(self.indexed_items@[x as int]),
                ),
            decreases self.filtered_indices@.len() - i,
        {
            let idx = self.filtered_indices[i];
            let item = &self.indexed_items[idx];
            let display = display_name_for_item(&item.value, item.id.as_str(), item.item_type.as_str());
            let mut prefix = item.item_type.clone();
            crate::text::push_char(&mut prefix, ' ');
            let ghost before = entries@;
            entries.push((display, prefix));
            proof {
                assert(item == self.indexed_items@[idx as int]);
                assert((display@, prefix@) == display_entry(self.indexed_items@[idx as int]));
                assert(display_view(entries@) =~= display_view(before).push((display@, prefix@)));
                assert(self.filtered_indices@.take(i + 1) =~= self.filtered_indices@.take(i as int).push(idx));
                assert(self.filtered_indices@.take(i + 1).map_values(|x: usize| display_entry(self.indexed_items@[x as int]))
                    =~= self.filtered_indices@.take(i as int).map_values(|x: usize| display_entry(self.indexed_items@[x as int])).push(display_entry(self.indexed_items@[idx as int])));
            }
            i += 1;
        }
        assert(self.filtered_indices@.take(self.filtered_indices@.len() as int) =~= self.filtered_indices@);
        self.cached_display = entries;
    }

    /// Empties the filter, puts the cursor at its start and recomputes the list.
    pub fn clear_filter(&mut self)
        requires
            old(self).wf(),
        ensures
            final(self).ui() == ui_refilter(ui_clear(old(self).ui()), old(self).indexed_items@, old(self).search_index),
            final(self).same_setting(&*old(self)),
            display_fresh(&*final(self)),
            refreshed(&*old(self), &*final(self)),
            final(self).wf(),
    {
        self.filter_clear();
        self.update_filter();
    }

    /// Recomputes the list for the filter, selects its first row, rebuilds
    /// the list entries and refreshes the details.
    pub fn update_filter(&mut self)
        requires
            old(self).wf(),
        ensures
            final(self).ui() == ui_refilter(old(self).ui(), old(self).indexed_items@, old(self).search_index),
            final(self).same_setting(&*old(self)),
            display_fresh(&*final(self)),
            refreshed(&*old(self), &*final(self)),
            final(self).wf(),
    {
        let new_filtered = find_matches(self.filter_text.as_str(), self.indexed_items.as_slice(), &self.search_index);
        proof {
            lemma_matching_in_range(self.filter_text@, self.indexed_items@, self.search_index, new_filtered@);
        }
        self.filtered_indices = new_filtered;
        if self.filtered_indices.len() == 0 {
            self.list_state.select(None);
        } else {
            self.list_state.select(Some(0));
        }
        self.rebuild_display_cache();
        self.refresh_details();
    }
}

/// The set of the non-empty ids of `items`.
fn collect_ids(items: &Vec<IndexedItem>) -> (set: StringHashSet)
    ensures
        set@ == ids_of(items@),
{
    let mut set = StringHashSet::new();
    let mut i: usize = 0;
    assert(ids_of(items@.take(0)) =~= Set::<Seq<char>>::empty());
    while i < items.len()
        invariant
            0 <= i <= items@.len(),
            set@ == ids_of(items@.take(i as int)),
        decreases items@.len() - i,
    {
        let ghost before = set@;
        let id = &items[i].id;
        if !id.as_str().is_empty() {
            set.insert(id.clone());
        }
        proof {
            let t = items@.take(i + 1);
            let t0 = items@.take(i as int);
            assert(t[i as int] == items@[i as int]);
            if id@.len() > 0 {
                assert(ids_of(t) =~= ids_of(t0).insert(id@)) by {
                    assert forall|k: Seq<char>| ids_of(t).contains(k) implies ids_of(t0).insert(id@).contains(k) by {
                        let j = choose|j: int| 0 <= j < t.len() && t[j].id@ == k;
                        if j < i {
                            assert(t0[j] == t[j]);
                        }
                    }
                    assert forall|k: Seq<char>| ids_of(t0).insert(id@).contains(k) implies ids_of(t).contains(k) by {
                        if k != id@ {
                            let j = choose|j: int| 0 <= j < t0.len() && t0[j].id@ == k;
                            assert(t[j] == t0[j]);
                        }
                    }
                }
            } else {
                assert(ids_of(t) =~= ids_of(t0)) by {
                    assert forall|k: Seq<char>| ids_of(t).contains(k) implies ids_of(t0).contains(k) by {
                        let j = choose|j: int| 0 <= j < t.len() && t[j].id@ == k;
                        if j < i {
                            assert(t0[j] == t[j]);
                        }
                    }
                    assert forall|k: Seq<char>| ids_of(t0).contains(k) implies ids_of(t).contains(k) by {
                        let j = choose|j: int| 0 <= j < t0.len() && t0[j].id@ == k;
                        assert(t[j] == t0[j]);
                    }
                }
            }
        }
        i += 1;
    }
    assert(items@.take(items@.len() as int) =~= items@);
    set
}

/// The indices `0..n`.
fn all_indices(n: usize) -> (r: Vec<usize>)
    ensures
        r@ == Seq::new(n as nat, |i: int| i as usize),
{
    let mut r: Vec<usize> = Vec::new();
    let mut i: usize = 0;
    while i < n
        invariant
            0 <= i <= n,
            r@ == Seq::new(i as nat, |j: int| j as usize),
        decreases n - i,
    {
        r.push(i);
        assert(r@ =~= Seq::new((i + 1) as nat, |j: int| j as usize));
        i += 1;
    }
    r
}

impl AppState {
    /// The state for a dataset: every item listed, the first selected, the
    /// filter empty and the list focused, with its details rendered.
    pub fn new(
        indexed_items: Vec<IndexedItem>,
        search_index: SearchIndex,
        theme: ThemeConfig,
        game_version: String,
        game_version_key: String,
        app_version: String,
        force_download: bool,
        total_items: usize,
        source_dir: Option<String>,
    ) -> (app: AppState)
        requires
            search_index.wf(),
            indexes(search_index, indexed_items@, indexed_items@.len() as int),
            indexed_items@.len() < usize::MAX,
        ensures
            app.wf(),
            app.indexed_items@ == indexed_items@,
            app.search_index == search_index,
            app.id_set@ == ids_of(indexed_items@),
            app.theme == theme,
            app.game_version@ == game_version@,
            app.game_version_key@ == game_version_key@,
            app.app_version@ == app_version@,
            app.force_download == force_download,
            app.total_items == total_items,
            app.source_dir == source_dir,
            app.ui() == (UiView {
                filter: Seq::empty(),
                cursor: 0,
                filtered: Seq::new(indexed_items@.len(), |i: int| i as usize),
                list: ListSelection { offset: 0, selected: if indexed_items@.len() == 0 { None } else { Some(0) } },
                mode: InputMode::Normal,
                focus: FocusPane::List,
                scroll: scroll_origin(),
                should_quit: false,
                show_help: false,
                show_version_picker: false,
                version_list: ListSelection { offset: 0, selected: None },
                history: Seq::empty(),
                history_index: None,
                stashed: Seq::empty(),
                pending: None,
                hovered: None,
            }),
            app.details_content_area is None,
            app.list_area is None,
            app.list_content_area is None,
            app.details_area is None,
            app.filter_area is None,
            app.filter_input_area is None,
            app.version_entries@.len() == 0,
            !app.show_progress,
            app.progress_title@.len() == 0,
            app.source_warnings@.len() == 0,
            app.cached_display@.len() == 0,
            app.cached_details_item_idx == selected_item_index(app.list_state, app.filtered_indices@),
            lines_view(app.details_annotated@) == details_content(indexed_items@, app.cached_details_item_idx, theme),
            app.details_wrapped_annotated@.len() == 0,
            app.details_wrapped_width == 0,
    {
        let n = indexed_items.len();
        let filtered_indices = all_indices(n);
        let id_set = collect_ids(&indexed_items);
        let mut list_state = ListSelection::new();
        if n == 0 {
            list_state.select(None);
        } else {
            list_state.select(Some(0));
        }
        let mut app = AppState {
            indexed_items,
            search_index,
            id_set,
            filtered_indices,
            list_state,
            filter_text: String::new(),
            filter_cursor: 0,
            input_mode: InputMode::Normal,
            focused_pane: FocusPane::List,
            theme,
            game_version,
            game_version_key,
            app_version,
            force_download,
            total_items,
            details_scroll_state: ScrollState::new(),
            details_annotated: Vec::new(),
            details_wrapped_annotated: Vec::new(),
            details_wrapped_width: 0,
            hovered_span_id: None,
            details_content_area: None,
            list_area: None,
            list_content_area: None,
            details_area: None,
            filter_area: None,
            filter_input_area: None,
            should_quit: false,
            show_help: false,
            show_version_picker: false,
            version_entries: Vec::new(),
            version_list_state: ListSelection::new(),
            show_progress: false,
            progress_title: String::new(),
            filter_history: Vec::new(),
            history_index: None,
            stashed_input: String::new(),
            pending_action: None,
            source_dir,
            source_warnings: Vec::new(),
            cached_details_item_idx: None,
            cached_display: Vec::new(),
        };
        assert(strings_of(app.filter_history@) =~= Seq::<Seq<char>>::empty());
        assert(display_view(app.cached_display@).len() == 0);
        app.refresh_details();
        assert(display_view(app.cached_display@).len() == app.cached_display@.len());
        app
    }

    /// Replaces the dataset, keeping the filter (its cursor clamped to its
    /// length), and recomputes the list and the details for it.
    pub fn apply_new_dataset(
        &mut self,
        indexed_items: Vec<IndexedItem>,
        search_index: SearchIndex,
        total_items: usize,
        game_version: String,
        game_version_key: String,
    )
        requires
            old(self).wf(),
            search_index.wf(),
            indexes(search_index, indexed_items@, indexed_items@.len() as int),
            indexed_items@.len() < usize::MAX,
        ensures
            final(self).wf(),
            final(self).indexed_items@ == indexed_items@,
            final(self).search_index == search_index,
            final(self).id_set@ == ids_of(indexed_items@),
            final(self).total_items == total_items,
            final(self).game_version@ == game_version@,
            final(self).game_version_key@ == game_version_key@,
            final(self).same_frame(&*old(self)),
            final(self).ui() == ui_refilter(
                UiView {
                    cursor: if old(self).filter_cursor <= old(self).filter_text@.len() {
                        old(self).filter_cursor
                    } else {
                        old(self).filter_text@.len() as usize
                    },
                    ..old(self).ui()
                },
                indexed_items@,
                search_index,
            ),
            display_fresh(&*final(self)),
            final(self).cached_details_item_idx == selected_item_index(final(self).list_state, final(self).filtered_indices@),
            lines_view(final(self).details_annotated@) == details_content(indexed_items@, final(self).cached_details_item_idx, final(self).theme),
            final(self).details_wrapped_annotated@.len() == 0,
            final(self).details_wrapped_width == 0,
    {
        let count = chars_of(self.filter_text.as_str()).len();
        let cursor = if self.filter_cursor <= count { self.filter_cursor } else { count };
        let id_set = collect_ids(&indexed_items);
        self.indexed_items = indexed_items;
        self.search_index = search_index;
        self.id_set = id_set;
        self.total_items = total_items;
        self.cached_details_item_idx = None;
        self.game_version = game_version;
        self.game_version_key = game_version_key;
        self.filter_cursor = cursor;
        self.filtered_indices = Vec::new();
        self.list_state.selected = None;
        self.update_filter();
    }
}

} // verus!
