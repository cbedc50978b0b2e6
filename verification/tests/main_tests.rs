use cbn_tui::app_core::indexing::{
    build_version_entries_from_builds, resolve_game_version_label, sort_for_listing,
};
use cbn_tui::app_core::actions::ActionWork;
use cbn_tui::app_core::input::{AppKeyCode, AppKeyEvent, AppMouseEvent, AppMouseKind};
use cbn_tui::app_core::layout::Rect;
use cbn_tui::app_core::reducer::{handle_key_event, handle_mouse_event, SCROLL_LINES};
use cbn_tui::app_core::state::{AppAction, AppState, FocusPane, InputMode};
use cbn_tui::data::{
    data_source, DataSource,
    builds_need_download, game_data_needs_download, game_data_url, missing_file_message,
    sort_builds_newest_first,
};
use cbn_tui::highlight::highlight_json_annotated;
use cbn_tui::json::JsonValue;
use cbn_tui::model::{BuildInfo, IndexedItem, Root};
use cbn_tui::search_index::SearchIndex;
use cbn_tui::theme::Theme;
use cbn_tui::ui::{filter_cursor_offset, wrap_annotated_lines};

fn convert(v: &serde_json::Value) -> JsonValue {
    match v {
        serde_json::Value::Null => JsonValue::Null,
        serde_json::Value::Bool(b) => JsonValue::Bool(*b),
        serde_json::Value::Number(n) => JsonValue::Number(n.to_string()),
        serde_json::Value::String(s) => JsonValue::Str(s.clone()),
        serde_json::Value::Array(a) => JsonValue::Array(a.iter().map(convert).collect()),
        serde_json::Value::Object(o) => {
            JsonValue::Object(o.iter().map(|(k, v)| (k.clone(), convert(v))).collect())
        }
    }
}

fn item_from(json: &str) -> IndexedItem {
    let v: serde_json::Value = serde_json::from_str(json).unwrap();
    IndexedItem::from_value(convert(&v))
}

fn key(code: AppKeyCode) -> AppKeyEvent {
    AppKeyEvent::new(code)
}

fn ctrl(code: AppKeyCode) -> AppKeyEvent {
    AppKeyEvent { code, ctrl: true, alt: false, shift: false, is_release: false }
}

fn app_with(items: Vec<IndexedItem>) -> AppState {
    let index = SearchIndex::build(&items);
    let n = items.len();
    AppState::new(items, index, Theme::Dracula.config(), "v1".to_string(), "v1".to_string(), "v1".to_string(), false, n, None)
}

fn numbered_app(n: usize) -> AppState {
    app_with((0..n).map(|i| item_from(&format!("{{\"id\": \"item_{}\", \"type\": \"t\"}}", i))).collect())
}

#[test]
fn main_test_highlight_json() {
    let style = Theme::Dracula.config().json_style;
    let annotated = highlight_json_annotated(r#"{"id": "test", "val": 123, "active": true}"#, &style);
    let mut found_id = false;
    let mut found_val = false;
    let mut found_true = false;
    for line in &annotated {
        for span in line {
            if span.content.contains("\"id\"") && span.style.fg == Some(style.key) {
                found_id = true;
            }
            if span.content.contains("123") && span.style.fg == Some(style.number) {
                found_val = true;
            }
            if span.content.contains("true") && span.style.fg == Some(style.boolean) {
                found_true = true;
            }
        }
    }
    assert!(found_id);
    assert!(found_val);
    assert!(found_true);
}

#[test]
fn main_test_filter_cursor_offset() {
    assert_eq!(filter_cursor_offset("abc", 0), 0);
    assert_eq!(filter_cursor_offset("abc", 1), 1);
    assert_eq!(filter_cursor_offset("🦀def", 1), 2);
}

#[test]
fn main_test_indexed_format_sorting() {
    let mut items = vec![
        item_from(r#"{"id": "z", "type": "b"}"#),
        item_from(r#"{"id": "a", "type": "b"}"#),
        item_from(r#"{"id": "m", "type": "a"}"#),
    ];
    sort_for_listing(&mut items);
    assert_eq!(items[0].id, "m");
    assert_eq!(items[1].id, "a");
    assert_eq!(items[2].id, "z");
}

#[test]
fn main_test_handle_key_event_navigation() {
    let mut app = app_with(vec![item_from(r#"{"id": "1", "type": "type"}"#), item_from(r#"{"id": "2", "type": "type"}"#)]);
    assert_eq!(app.list_state.selected(), Some(0));
    handle_key_event(&mut app, key(AppKeyCode::Down));
    assert_eq!(app.list_state.selected(), Some(1));
    handle_key_event(&mut app, key(AppKeyCode::Up));
    assert_eq!(app.list_state.selected(), Some(0));
}

#[test]
fn main_test_handle_key_event_filtering() {
    let mut app = app_with(vec![item_from(r#"{"id": "apple", "type": "fruit"}"#), item_from(r#"{"id": "banana", "type": "fruit"}"#)]);
    handle_key_event(&mut app, key(AppKeyCode::Char('/')));
    assert_eq!(app.input_mode, InputMode::Filtering);
    handle_key_event(&mut app, key(AppKeyCode::Char('a')));
    assert_eq!(app.filter_text, "a");
    assert_eq!(app.filtered_indices.len(), 2);
    handle_key_event(&mut app, key(AppKeyCode::Char('p')));
    assert_eq!(app.filter_text, "ap");
    assert_eq!(app.filtered_indices.len(), 1);
    assert_eq!(app.filtered_indices[0], 0);
}

#[test]
fn main_test_handle_key_event_autofocus_filter() {
    let mut app = numbered_app(1);
    handle_key_event(&mut app, key(AppKeyCode::Char('t')));
    assert_eq!(app.input_mode, InputMode::Filtering);
    assert_eq!(app.filter_text, "t");
    assert_eq!(app.focused_pane, FocusPane::Filter);
}

#[test]
fn main_test_filter_history() {
    let mut app = numbered_app(1);
    app.input_mode = InputMode::Filtering;
    app.filter_text = "test_query".to_string();
    handle_key_event(&mut app, key(AppKeyCode::Enter));
    assert_eq!(app.filter_history.len(), 1);
    assert_eq!(app.filter_history[0], "test_query");
    app.input_mode = InputMode::Filtering;
    app.filter_text = String::new();
    handle_key_event(&mut app, key(AppKeyCode::Up));
    assert_eq!(app.filter_text, "test_query");
}

#[test]
fn main_test_focus_cycling() {
    let mut app = numbered_app(1);
    assert_eq!(app.focused_pane, FocusPane::List);
    handle_key_event(&mut app, key(AppKeyCode::Tab));
    assert_eq!(app.focused_pane, FocusPane::Details);
    handle_key_event(&mut app, key(AppKeyCode::Tab));
    assert_eq!(app.focused_pane, FocusPane::Filter);
    assert_eq!(app.input_mode, InputMode::Filtering);
    handle_key_event(&mut app, key(AppKeyCode::Tab));
    assert_eq!(app.focused_pane, FocusPane::List);
    handle_key_event(&mut app, key(AppKeyCode::BackTab));
    assert_eq!(app.focused_pane, FocusPane::Filter);
}

#[test]
fn main_test_context_aware_navigation() {
    let mut app = numbered_app(20);
    app.list_area = Some(Rect::new(0, 0, 20, 10));
    app.focused_pane = FocusPane::List;
    handle_key_event(&mut app, key(AppKeyCode::PageDown));
    assert_eq!(app.list_state.selected(), Some(10));
    handle_key_event(&mut app, key(AppKeyCode::End));
    assert_eq!(app.list_state.selected(), Some(19));
    handle_key_event(&mut app, key(AppKeyCode::PageUp));
    assert_eq!(app.list_state.selected(), Some(9));
    handle_key_event(&mut app, key(AppKeyCode::Home));
    assert_eq!(app.list_state.selected(), Some(0));
    app.focused_pane = FocusPane::Details;
    handle_key_event(&mut app, key(AppKeyCode::Down));
    assert_eq!(app.details_scroll_state.offset().y, 1);
    handle_key_event(&mut app, key(AppKeyCode::Up));
    assert_eq!(app.details_scroll_state.offset().y, 0);
}

#[test]
fn main_test_input_shortcuts() {
    let mut app = numbered_app(1);
    app.focus_pane(FocusPane::Filter);
    app.filter_text = "hello world".to_string();
    app.filter_cursor = 11;
    handle_key_event(&mut app, ctrl(AppKeyCode::Char('a')));
    assert_eq!(app.filter_cursor, 0);
    handle_key_event(&mut app, ctrl(AppKeyCode::Char('e')));
    assert_eq!(app.filter_cursor, 11);
    handle_key_event(&mut app, ctrl(AppKeyCode::Char('w')));
    assert_eq!(app.filter_text, "hello ");
    assert_eq!(app.filter_cursor, 6);
    handle_key_event(&mut app, ctrl(AppKeyCode::Char('u')));
    assert_eq!(app.filter_text, "");
    assert_eq!(app.filter_cursor, 0);
}

#[test]
fn main_test_esc_behavior() {
    let mut app = numbered_app(1);
    app.focus_pane(FocusPane::Filter);
    app.filter_text = "abc".to_string();
    handle_key_event(&mut app, key(AppKeyCode::Esc));
    assert_eq!(app.filter_text, "abc");
    assert_eq!(app.focused_pane, FocusPane::List);
    app.should_quit = false;
    handle_key_event(&mut app, key(AppKeyCode::Esc));
    assert!(!app.should_quit);
}

#[test]
fn main_test_quit_behavior() {
    let mut app = numbered_app(1);
    app.focus_pane(FocusPane::List);
    handle_key_event(&mut app, key(AppKeyCode::Char('q')));
    assert!(app.should_quit);
    app.focus_pane(FocusPane::Filter);
    app.filter_text = String::new();
    app.should_quit = false;
    handle_key_event(&mut app, key(AppKeyCode::Char('q')));
    assert!(!app.should_quit);
    assert_eq!(app.filter_text, "q");
}

#[test]
fn main_test_handle_key_event_ignores_release_kind() {
    let mut app = app_with(vec![item_from(r#"{"id": "apple", "type": "fruit"}"#)]);
    let release = AppKeyEvent { code: AppKeyCode::Char('a'), ctrl: false, alt: false, shift: false, is_release: true };
    handle_key_event(&mut app, release);
    assert_eq!(app.input_mode, InputMode::Normal);
    assert!(app.filter_text.is_empty());
}

#[test]
fn main_test_refresh_details_populates_annotated() {
    let mut app = app_with(vec![item_from(r#"{"id": "1", "type": "t"}"#)]);
    app.refresh_details();
    assert!(!app.details_annotated.is_empty());
    let found_id = app.details_annotated.iter().any(|line| line.iter().any(|s| s.content == "\"id\""));
    assert!(found_id);
}

#[test]
fn main_test_id_set_populated() {
    let app = app_with(vec![
        item_from(r#"{"id": "base_rifle", "type": "t"}"#),
        item_from(r#"{"id": "other", "type": "t"}"#),
        item_from(r#"{"name": "no_id", "type": "t"}"#),
    ]);
    assert!(app.id_set.contains("base_rifle"));
    assert!(app.id_set.contains("other"));
    assert_eq!(app.id_set.len(), 2);
}

fn mouse(kind: AppMouseKind, column: u16, row: u16) -> AppMouseEvent {
    AppMouseEvent { kind, column, row, ctrl: false }
}

#[test]
fn main_test_mouse_click_list_selects_item_and_focuses_list() {
    let mut app = numbered_app(8);
    app.list_area = Some(Rect::new(0, 0, 20, 8));
    app.list_content_area = Some(Rect::new(1, 1, 18, 6));
    app.details_area = Some(Rect::new(20, 0, 40, 8));
    app.filter_area = Some(Rect::new(0, 8, 60, 3));
    let transitioned = handle_mouse_event(&mut app, mouse(AppMouseKind::LeftDown, 3, 3));
    assert!(transitioned);
    assert_eq!(app.focused_pane, FocusPane::List);
    assert_eq!(app.input_mode, InputMode::Normal);
    assert_eq!(app.list_state.selected(), Some(2));
}

#[test]
fn main_test_mouse_click_filter_sets_caret_position() {
    let mut app = numbered_app(1);
    app.filter_text = "abcdef".to_string();
    app.filter_cursor = app.filter_text.chars().count();
    app.list_area = Some(Rect::new(0, 0, 20, 8));
    app.details_area = Some(Rect::new(20, 0, 40, 8));
    app.filter_area = Some(Rect::new(0, 8, 60, 3));
    app.filter_input_area = Some(Rect::new(1, 9, 58, 1));
    let transitioned = handle_mouse_event(&mut app, mouse(AppMouseKind::LeftDown, 3, 9));
    assert!(transitioned);
    assert_eq!(app.focused_pane, FocusPane::Filter);
    assert_eq!(app.input_mode, InputMode::Filtering);
    assert_eq!(app.filter_cursor, 2);
}

#[test]
fn main_test_mouse_click_filter_past_end_clamps_to_end() {
    let mut app = numbered_app(1);
    app.filter_text = "abc".to_string();
    app.filter_cursor = 0;
    app.list_area = Some(Rect::new(0, 0, 20, 8));
    app.details_area = Some(Rect::new(20, 0, 40, 8));
    app.filter_area = Some(Rect::new(0, 8, 30, 3));
    app.filter_input_area = Some(Rect::new(1, 9, 28, 1));
    let transitioned = handle_mouse_event(&mut app, mouse(AppMouseKind::LeftDown, 20, 9));
    assert!(transitioned);
    assert_eq!(app.filter_cursor, app.filter_text.chars().count());
}

#[test]
fn main_test_mouse_scroll_hovered_list_moves_by_constant() {
    let mut app = numbered_app(10);
    app.list_area = Some(Rect::new(0, 0, 20, 10));
    app.list_content_area = Some(Rect::new(1, 1, 18, 8));
    let transitioned = handle_mouse_event(&mut app, mouse(AppMouseKind::ScrollDown, 2, 2));
    assert!(transitioned);
    assert_eq!(app.list_state.selected(), Some(SCROLL_LINES as usize));
    assert_eq!(app.focused_pane, FocusPane::List);
}

#[test]
fn main_test_mouse_scroll_hovered_details_moves_by_constant() {
    let mut app = numbered_app(1);
    app.details_area = Some(Rect::new(20, 0, 40, 10));
    let transitioned = handle_mouse_event(&mut app, mouse(AppMouseKind::ScrollDown, 25, 1));
    assert!(transitioned);
    assert_eq!(app.details_scroll_state.offset().y, SCROLL_LINES);
}

#[test]
fn main_test_mouse_click_details_focuses_even_without_link() {
    let mut app = numbered_app(1);
    let style = Theme::Dracula.config().json_style;
    let annotated = highlight_json_annotated(r#""id": 1"#, &style);
    app.details_wrapped_annotated = wrap_annotated_lines(&annotated, 20);
    app.details_area = Some(Rect::new(20, 0, 40, 10));
    app.details_content_area = Some(Rect::new(20, 0, 40, 10));
    app.filter_text = "x".to_string();
    app.filter_cursor = 1;
    app.focused_pane = FocusPane::List;
    app.input_mode = InputMode::Normal;
    let transitioned = handle_mouse_event(&mut app, mouse(AppMouseKind::LeftDown, 22, 0));
    assert!(transitioned);
    assert_eq!(app.focused_pane, FocusPane::Details);
    assert_eq!(app.filter_text, "x");
}

fn build(number: &str, tag: &str, created: &str) -> BuildInfo {
    BuildInfo { build_number: number.to_string(), tag_name: tag.to_string(), prerelease: false, created_at: created.to_string() }
}

#[test]
fn version_label_prefixes_the_requested_key() {
    let root = Root { build: build("2024-05-01", "cbn-2024-05-01", "x"), data: Vec::new() };
    assert_eq!(resolve_game_version_label("nightly", None, &root), "nightly:cbn-2024-05-01");
    assert_eq!(resolve_game_version_label("nightly", Some("all.json"), &root), "cbn-2024-05-01");
    assert_eq!(resolve_game_version_label("2024-05-01", None, &root), "cbn-2024-05-01");
    assert_eq!(resolve_game_version_label("", None, &root), "cbn-2024-05-01");
}

#[test]
fn version_entries_start_with_the_channels() {
    let entries = build_version_entries_from_builds(vec![
        build("stable", "s", "1"),
        build("2024-05-01", "t", "2"),
        build("nightly", "n", "3"),
        build("2024-04-01", "u", "4"),
    ]);
    let versions: Vec<&str> = entries.iter().map(|e| e.version.as_str()).collect();
    assert_eq!(versions, vec!["stable", "nightly", "2024-05-01", "2024-04-01"]);
    assert!(entries.iter().all(|e| e.label == e.version && e.detail.is_none()));
}

#[test]
fn builds_are_sorted_newest_first() {
    let mut builds = vec![build("a", "a", "2024-01-01"), build("b", "b", "2024-03-01"), build("c", "c", "2024-02-01")];
    sort_builds_newest_first(&mut builds);
    let numbers: Vec<&str> = builds.iter().map(|b| b.build_number.as_str()).collect();
    assert_eq!(numbers, vec!["b", "c", "a"]);
}

#[test]
fn cache_freshness_rules() {
    assert!(builds_need_download(true, true, Some(0)));
    assert!(builds_need_download(false, false, None));
    assert!(!builds_need_download(false, true, Some(3600)));
    assert!(builds_need_download(false, true, Some(3601)));
    assert!(!builds_need_download(false, true, None));
    assert!(!game_data_needs_download(false, true, "nightly", Some((43200, 0))));
    assert!(game_data_needs_download(false, true, "nightly", Some((43200, 1))));
    assert!(game_data_needs_download(false, true, "stable", Some((2592001, 0))));
    assert!(!game_data_needs_download(false, true, "2024-05-01", Some((u64::MAX, 0))));
    assert!(game_data_needs_download(false, false, "2024-05-01", None));
}

#[test]
fn data_locations_and_messages() {
    assert_eq!(game_data_url("stable"), "https://data.cataclysmbn-guide.com/data/stable/all.json");
    assert_eq!(
        missing_file_message("all.json"),
        "Default 'all.json' not found in current directory. Use --file or --game to specify data source."
    );
    assert_eq!(missing_file_message("x.json"), "File not found: x.json");
}

#[test]
fn build_records_flatten_their_release() {
    let release: serde_json::Value =
        serde_json::from_str(r#"{"tag_name": "cbn-x", "prerelease": true, "created_at": "2024"}"#).unwrap();
    let b = BuildInfo::from_fields("x".to_string(), Some(false), None, Some(convert(&release)));
    assert_eq!(b.tag_name, "cbn-x");
    assert!(b.prerelease);
    assert_eq!(b.created_at, "2024");
    let plain = BuildInfo::from_fields("y".to_string(), None, Some("2023".to_string()), None);
    assert_eq!(plain.tag_name, "y");
    assert!(!plain.prerelease);
    assert_eq!(plain.created_at, "2023");
}

#[test]
fn details_cell_fit_is_checked_before_mouse_handling() {
    let mut app = numbered_app(3);
    assert!(cbn_tui::ui::details_cell_fits_exec(&app, 10, 10));
    app.details_content_area = Some(cbn_tui::app_core::layout::Rect { x: 10, y: 5, width: 20, height: 10 });
    assert!(cbn_tui::ui::details_cell_fits_exec(&app, 12, 7));
    assert!(cbn_tui::ui::details_cell_fits_exec(&app, 0, 0));
    app.details_content_area = Some(cbn_tui::app_core::layout::Rect { x: 65535, y: 0, width: 1, height: 1 });
    assert!(!cbn_tui::ui::details_cell_fits_exec(&app, 0, 0));
    app.details_content_area = Some(cbn_tui::app_core::layout::Rect { x: 0, y: 65000, width: 20, height: 1000 });
    assert!(!cbn_tui::ui::details_cell_fits_exec(&app, 5, 65100));
    assert!(cbn_tui::ui::details_cell_fits_exec(&app, 5, 100));
}

#[test]
fn version_picker_starts_on_loaded_version() {
    let mut app = numbered_app(2);
    app.game_version_key = "v0.9".to_string();
    app.show_builds(vec![build("nightly", "nightly", "3"), build("v1.0", "v1.0", "2"), build("v0.9", "v0.9", "1")]);
    let versions: Vec<&str> = app.version_entries.iter().map(|e| e.version.as_str()).collect();
    assert_eq!(versions, vec!["stable", "nightly", "v1.0", "v0.9"]);
    assert_eq!(app.version_list_state.selected, Some(3));
    assert!(app.show_version_picker);

    app.game_version_key = "v2.0".to_string();
    app.show_builds(vec![build("v1.0", "v1.0", "2")]);
    assert_eq!(app.version_list_state.selected, Some(0));
}

#[test]
fn actions_tell_what_to_load() {
    let mut app = numbered_app(1);
    app.game_version_key = "stable".to_string();
    assert!(matches!(app.begin_action(AppAction::OpenVersionPicker), ActionWork::FetchBuilds));
    app.show_version_picker = true;
    assert!(matches!(app.begin_action(AppAction::SwitchVersion("stable".to_string())), ActionWork::Nothing));
    assert!(!app.show_version_picker);
    app.show_version_picker = true;
    match app.begin_action(AppAction::SwitchVersion("v0.9".to_string())) {
        ActionWork::Load(v) => assert_eq!(v, "v0.9"),
        other => panic!("unexpected {:?}", other),
    }
    assert!(!app.show_version_picker);
    assert!(matches!(app.begin_action(AppAction::ReloadSource), ActionWork::Nothing));
    app.source_dir = Some("data".to_string());
    app.source_warnings = vec!["bad file".to_string()];
    match app.begin_action(AppAction::ReloadSource) {
        ActionWork::Load(v) => assert_eq!(v, "local"),
        other => panic!("unexpected {:?}", other),
    }
    assert!(app.source_warnings.is_empty());
}

#[test]
fn data_comes_from_source_dir_file_or_download() {
    let dir = Some("data".to_string());
    assert!(matches!(data_source("local", None, &dir), DataSource::SourceDir(d) if d == "data"));
    assert!(matches!(data_source("local", Some("all.json"), &dir), DataSource::SourceDir(_)));
    assert!(matches!(data_source("nightly", Some("all.json"), &dir), DataSource::File(f) if f == "all.json"));
    assert!(matches!(data_source("local", Some("x.json"), &None), DataSource::File(f) if f == "x.json"));
    assert!(matches!(data_source("stable", None, &dir), DataSource::Download));
}

#[test]
fn listing_sort_keeps_order_of_equal_keys() {
    let mut items = vec![
        item_from(r#"{"id": "b", "type": "t", "n": 1}"#),
        item_from(r#"{"id": "a", "type": "t", "n": 2}"#),
        item_from(r#"{"id": "b", "type": "t", "n": 3}"#),
        item_from(r#"{"id": "a", "type": "s", "n": 4}"#),
    ];
    sort_for_listing(&mut items);
    let got: Vec<String> = items
        .iter()
        .map(|i| match i.value.get("n") {
            Some(JsonValue::Number(n)) => n.clone(),
            _ => String::new(),
        })
        .collect();
    assert_eq!(got, vec!["4", "2", "1", "3"]);
}

#[test]
fn build_sort_keeps_order_of_equal_dates() {
    let mut builds = vec![build("a", "a", "2024"), build("b", "b", "2025"), build("c", "c", "2024")];
    sort_builds_newest_first(&mut builds);
    let numbers: Vec<&str> = builds.iter().map(|b| b.build_number.as_str()).collect();
    assert_eq!(numbers, vec!["b", "a", "c"]);
}

#[test]
fn details_show_the_value_pretty_printed() {
    let json = r#"{"id": "gun", "type": "GUN", "weight": 1.5, "count": -3, "big": 18446744073709551615, "flags": ["A", {"b": null, "c": true}], "empty": {}, "none": []}"#;
    let v: serde_json::Value = serde_json::from_str(json).unwrap();
    let app = app_with(vec![item_from(json)]);
    let shown: Vec<String> = app
        .details_annotated
        .iter()
        .map(|line| line.iter().map(|s| s.content.as_str()).collect::<String>())
        .collect();
    let expected: Vec<String> = serde_json::to_string_pretty(&v).unwrap().lines().map(|l| l.to_string()).collect();
    assert_eq!(shown, expected);
}

#[test]
fn clear_filter_empties_filter_and_lists_everything() {
    let mut app = numbered_app(3);
    for c in "item_1".chars() {
        app.filter_add_char(c);
    }
    app.update_filter();
    assert_eq!(app.filtered_indices, vec![1]);
    app.clear_filter();
    assert!(app.filter_text.is_empty());
    assert_eq!(app.filter_cursor, 0);
    assert_eq!(app.filtered_indices, vec![0, 1, 2]);
}

#[test]
fn details_are_rewrapped_only_for_a_new_width() {
    let mut app = numbered_app(1);
    app.wrap_details(8);
    assert_eq!(app.details_wrapped_width, 8);
    let at8 = app.details_wrapped_annotated.len();
    assert!(at8 > 0);
    app.details_wrapped_annotated.clear();
    app.wrap_details(8);
    assert!(app.details_wrapped_annotated.is_empty());
    app.wrap_details(80);
    assert_eq!(app.details_wrapped_width, 80);
    assert!(!app.details_wrapped_annotated.is_empty());
    assert!(app.details_wrapped_annotated.len() <= at8);
}
