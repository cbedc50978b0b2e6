use cbn_tui::app_core::input::{AppKeyCode, AppKeyEvent, AppMouseEvent, AppMouseKind};
use cbn_tui::app_core::layout::Rect;
use cbn_tui::app_core::reducer::{handle_key_event, handle_mouse_event, pane_at, SCROLL_LINES};
use cbn_tui::app_core::state::{AppAction, AppState, FocusPane, InputMode};
use cbn_tui::highlight::highlight_json_annotated;
use cbn_tui::json::JsonValue;
use cbn_tui::model::IndexedItem;
use cbn_tui::search_index::SearchIndex;
use cbn_tui::theme::Theme;
use cbn_tui::ui::wrap_annotated_lines;

fn convert(v: &serde_json::Value) -> JsonValue {
    match v {
        serde_json::Value::Null => JsonValue::Null,
        serde_json::Value::Bool(b) => JsonValue::Bool(*b),
        serde_json::Value::Number(n) => JsonValue::Number(n.to_string()),
        serde_json::Value::String(s) => JsonValue::Str(s.clone()),
        serde_json::Value::Array(a) => JsonValue::Array(a.iter().map(convert).collect()),
        serde_json::Value::Object(o) => {
            JsonValue::Object(o.iter().map(|(k, v)| (k.clone(), convert(v))).collect())
        }
    }
}

fn item_from(json: &str) -> IndexedItem {
    let v: serde_json::Value = serde_json::from_str(json).unwrap();
    IndexedItem::from_value(convert(&v))
}

fn make_key(code: AppKeyCode) -> AppKeyEvent {
    AppKeyEvent { code, ctrl: false, alt: false, shift: false, is_release: false }
}

fn make_key_ctrl(code: AppKeyCode) -> AppKeyEvent {
    AppKeyEvent { code, ctrl: true, alt: false, shift: false, is_release: false }
}

fn make_key_shift(code: AppKeyCode) -> AppKeyEvent {
    AppKeyEvent { code, ctrl: false, alt: false, shift: true, is_release: false }
}

fn make_mouse(kind: AppMouseKind, column: u16, row: u16) -> AppMouseEvent {
    AppMouseEvent { kind, column, row, ctrl: false }
}

fn make_app_with_items(items: Vec<IndexedItem>) -> AppState {
    let search_index = SearchIndex::build(&items);
    let count = items.len();
    AppState::new(
        items,
        search_index,
        Theme::Dracula.config(),
        "v1".to_string(),
        "v1".to_string(),
        "v1".to_string(),
        false,
        count,
        None,
    )
}

fn make_test_app(items: usize) -> AppState {
    let items = (0..items).map(|i| item_from(&format!("{{\"id\": \"item_{}\", \"type\": \"t\"}}", i))).collect();
    make_app_with_items(items)
}

#[test]
fn reducer_test_handle_key_event_navigation() {
    let mut app = make_app_with_items(vec![
        item_from(r#"{"id": "1", "type": "type"}"#),
        item_from(r#"{"id": "2", "type": "type"}"#),
    ]);
    assert_eq!(app.list_state.selected(), Some(0));
    handle_key_event(&mut app, make_key(AppKeyCode::Down));
    assert_eq!(app.list_state.selected(), Some(1));
    handle_key_event(&mut app, make_key(AppKeyCode::Up));
    assert_eq!(app.list_state.selected(), Some(0));
}

#[test]
fn reducer_test_handle_key_event_filtering() {
    let mut app = make_app_with_items(vec![
        item_from(r#"{"id": "apple", "type": "fruit"}"#),
        item_from(r#"{"id": "banana", "type": "fruit"}"#),
    ]);
    handle_key_event(&mut app, make_key(AppKeyCode::Char('/')));
    assert_eq!(app.input_mode, InputMode::Filtering);
    handle_key_event(&mut app, make_key(AppKeyCode::Char('a')));
    assert_eq!(app.filter_text, "a");
    assert_eq!(app.filtered_indices.len(), 2);
    handle_key_event(&mut app, make_key(AppKeyCode::Char('p')));
    assert_eq!(app.filter_text, "ap");
    assert_eq!(app.filtered_indices.len(), 1);
    assert_eq!(app.filtered_indices[0], 0);
}

#[test]
fn reducer_test_handle_key_event_autofocus_filter() {
    let mut app = make_test_app(1);
    handle_key_event(&mut app, make_key(AppKeyCode::Char('t')));
    assert_eq!(app.input_mode, InputMode::Filtering);
    assert_eq!(app.filter_text, "t");
}

#[test]
fn test_filter_history_in_memory() {
    let mut app = make_test_app(1);
    app.input_mode = InputMode::Filtering;
    app.filter_text = "test_query".to_string();
    handle_key_event(&mut app, make_key(AppKeyCode::Enter));
    assert_eq!(app.filter_history.len(), 1);
    assert_eq!(app.filter_history[0], "test_query");

    app.input_mode = InputMode::Filtering;
    app.filter_text = String::new();
    handle_key_event(&mut app, make_key(AppKeyCode::Up));
    assert_eq!(app.filter_text, "test_query");
}

#[test]
fn reducer_test_focus_cycling() {
    let mut app = make_test_app(1);
    assert_eq!(app.focused_pane, FocusPane::List);
    handle_key_event(&mut app, make_key(AppKeyCode::Tab));
    assert_eq!(app.focused_pane, FocusPane::Details);
    handle_key_event(&mut app, make_key(AppKeyCode::Tab));
    assert_eq!(app.focused_pane, FocusPane::Filter);
    handle_key_event(&mut app, make_key(AppKeyCode::Tab));
    assert_eq!(app.focused_pane, FocusPane::List);
    handle_key_event(&mut app, make_key_shift(AppKeyCode::Tab));
    assert_eq!(app.focused_pane, FocusPane::Filter);
    handle_key_event(&mut app, make_key(AppKeyCode::BackTab));
    assert_eq!(app.focused_pane, FocusPane::Details);
}

#[test]
fn reducer_test_context_aware_navigation() {
    let mut app = make_test_app(20);
    app.list_area = Some(Rect::new(0, 0, 20, 10));
    app.focused_pane = FocusPane::List;
    handle_key_event(&mut app, make_key(AppKeyCode::PageDown));
    assert_eq!(app.list_state.selected(), Some(10));
    handle_key_event(&mut app, make_key(AppKeyCode::Home));
    assert_eq!(app.list_state.selected(), Some(0));

    app.focused_pane = FocusPane::Details;
    assert_eq!(app.details_scroll_state.offset().y, 0);
    handle_key_event(&mut app, make_key(AppKeyCode::Down));
    assert_eq!(app.details_scroll_state.offset().y, 1);
    handle_key_event(&mut app, make_key(AppKeyCode::Home));
    assert_eq!(app.details_scroll_state.offset().y, 0);
}

#[test]
fn reducer_test_input_shortcuts() {
    let mut app = make_test_app(1);
    app.focus_pane(FocusPane::Filter);
    app.filter_text = "hello world".to_string();
    app.filter_cursor = 11;
    handle_key_event(&mut app, make_key_ctrl(AppKeyCode::Char('a')));
    assert_eq!(app.filter_cursor, 0);
    handle_key_event(&mut app, make_key_ctrl(AppKeyCode::Char('e')));
    assert_eq!(app.filter_cursor, 11);
    handle_key_event(&mut app, make_key_ctrl(AppKeyCode::Char('w')));
    assert_eq!(app.filter_text, "hello ");
    assert_eq!(app.filter_cursor, 6);
    handle_key_event(&mut app, make_key_ctrl(AppKeyCode::Char('u')));
    assert_eq!(app.filter_text, "");
    assert_eq!(app.filter_cursor, 0);
}

#[test]
fn reducer_test_esc_behavior() {
    let mut app = make_test_app(1);
    app.focus_pane(FocusPane::Filter);
    app.filter_text = "abc".to_string();
    handle_key_event(&mut app, make_key(AppKeyCode::Esc));
    assert_eq!(app.filter_text, "abc");
    assert_eq!(app.focused_pane, FocusPane::List);

    app.focus_pane(FocusPane::List);
    app.should_quit = false;
    handle_key_event(&mut app, make_key(AppKeyCode::Esc));
    assert!(!app.should_quit);
}

#[test]
fn reducer_test_quit_behavior() {
    let mut app = make_test_app(1);
    app.focus_pane(FocusPane::List);
    app.should_quit = false;
    handle_key_event(&mut app, make_key(AppKeyCode::Char('q')));
    assert!(app.should_quit);

    app.focus_pane(FocusPane::Filter);
    app.filter_text = String::new();
    app.should_quit = false;
    handle_key_event(&mut app, make_key(AppKeyCode::Char('q')));
    assert!(!app.should_quit);
    assert_eq!(app.filter_text, "q");
}

#[test]
fn test_handle_key_event_ignores_release() {
    let mut app = make_test_app(1);
    let release_event =
        AppKeyEvent { code: AppKeyCode::Char('a'), ctrl: false, alt: false, shift: false, is_release: true };
    handle_key_event(&mut app, release_event);
    assert_eq!(app.input_mode, InputMode::Normal);
    assert!(app.filter_text.is_empty());
}

#[test]
fn reducer_test_mouse_click_list_selects_item_and_focuses_list() {
    let mut app = make_test_app(8);
    app.list_area = Some(Rect::new(0, 0, 20, 8));
    app.list_content_area = Some(Rect::new(1, 1, 18, 6));
    app.details_area = Some(Rect::new(20, 0, 40, 8));
    app.filter_area = Some(Rect::new(0, 8, 60, 3));
    let transitioned = handle_mouse_event(&mut app, make_mouse(AppMouseKind::LeftDown, 3, 3));
    assert!(transitioned);
    assert_eq!(app.focused_pane, FocusPane::List);
    assert_eq!(app.input_mode, InputMode::Normal);
    assert_eq!(app.list_state.selected(), Some(2));
}

#[test]
fn reducer_test_mouse_click_filter_sets_caret_position() {
    let mut app = make_test_app(1);
    app.filter_text = "abcdef".to_string();
    app.filter_cursor = app.filter_text.chars().count();
    app.list_area = Some(Rect::new(0, 0, 20, 8));
    app.details_area = Some(Rect::new(20, 0, 40, 8));
    app.filter_area = Some(Rect::new(0, 8, 60, 3));
    app.filter_input_area = Some(Rect::new(1, 9, 58, 1));
    let transitioned = handle_mouse_event(&mut app, make_mouse(AppMouseKind::LeftDown, 3, 9));
    assert!(transitioned);
    assert_eq!(app.focused_pane, FocusPane::Filter);
    assert_eq!(app.input_mode, InputMode::Filtering);
    assert_eq!(app.filter_cursor, 2);
}

#[test]
fn reducer_test_mouse_click_filter_past_end_clamps_to_end() {
    let mut app = make_test_app(1);
    app.filter_text = "abc".to_string();
    app.filter_cursor = 0;
    app.list_area = Some(Rect::new(0, 0, 20, 8));
    app.details_area = Some(Rect::new(20, 0, 40, 8));
    app.filter_area = Some(Rect::new(0, 8, 30, 3));
    app.filter_input_area = Some(Rect::new(1, 9, 28, 1));
    let transitioned = handle_mouse_event(&mut app, make_mouse(AppMouseKind::LeftDown, 20, 9));
    assert!(transitioned);
    assert_eq!(app.filter_cursor, app.filter_text.chars().count());
}

#[test]
fn reducer_test_mouse_scroll_hovered_list_moves_by_constant() {
    let mut app = make_test_app(10);
    app.list_area = Some(Rect::new(0, 0, 20, 10));
    app.list_content_area = Some(Rect::new(1, 1, 18, 8));
    let transitioned = handle_mouse_event(&mut app, make_mouse(AppMouseKind::ScrollDown, 2, 2));
    assert!(transitioned);
    assert_eq!(app.list_state.selected(), Some(SCROLL_LINES as usize));
}

#[test]
fn reducer_test_mouse_scroll_hovered_details_moves_by_constant() {
    let mut app = make_test_app(1);
    app.details_area = Some(Rect::new(20, 0, 40, 10));
    let transitioned = handle_mouse_event(&mut app, make_mouse(AppMouseKind::ScrollDown, 25, 1));
    assert!(transitioned);
    assert_eq!(app.details_scroll_state.offset().y, SCROLL_LINES);
}

#[test]
fn test_mouse_click_details_focuses_without_link() {
    let mut app = make_test_app(1);
    let style = Theme::Dracula.config().json_style;
    let annotated = highlight_json_annotated(r#""id": 1"#, &style);
    app.details_wrapped_annotated = wrap_annotated_lines(&annotated, 20);
    app.details_area = Some(Rect::new(20, 0, 40, 10));
    app.details_content_area = Some(Rect::new(20, 0, 40, 10));
    app.filter_text = "x".to_string();
    app.filter_cursor = 1;
    app.focused_pane = FocusPane::List;
    app.input_mode = InputMode::Normal;
    let transitioned = handle_mouse_event(&mut app, make_mouse(AppMouseKind::LeftDown, 22, 0));
    assert!(transitioned);
    assert_eq!(app.focused_pane, FocusPane::Details);
    assert_eq!(app.filter_text, "x");
}

fn app_with_link() -> AppState {
    let mut app = make_app_with_items(vec![
        item_from(r#"{"id": "knife", "type": "TOOL", "material": "steel"}"#),
        item_from(r#"{"id": "steel", "type": "material"}"#),
    ]);
    let lines = wrap_annotated_lines(&app.details_annotated, 40);
    app.details_wrapped_annotated = lines;
    app.details_area = Some(Rect::new(20, 0, 42, 12));
    app.details_content_area = Some(Rect::new(20, 0, 42, 12));
    app
}

#[test]
fn clicking_a_value_filters_by_its_field() {
    let mut app = app_with_link();
    // line 3 is `  "material": "steel"`; the value starts at column 14 of the text
    let row = 3;
    let transitioned = handle_mouse_event(&mut app, make_mouse(AppMouseKind::LeftDown, 21 + 16, row));
    assert!(transitioned);
    assert_eq!(app.filter_text, "material:'steel'");
    assert_eq!(app.filter_cursor, "material:'steel'".chars().count());
    assert_eq!(app.focused_pane, FocusPane::Filter);
    assert_eq!(app.filtered_indices, vec![0]);
}

#[test]
fn ctrl_clicking_a_value_looks_it_up_by_id() {
    let mut app = app_with_link();
    let event = AppMouseEvent { kind: AppMouseKind::LeftDown, column: 21 + 16, row: 3, ctrl: true };
    assert!(handle_mouse_event(&mut app, event));
    assert_eq!(app.filter_text, "i:'steel'");
    assert_eq!(app.focused_pane, FocusPane::Details);
    assert_eq!(app.filtered_indices, vec![1]);
}

#[test]
fn clicking_an_excluded_field_is_not_a_link() {
    let mut app = app_with_link();
    // line 1 is `  "id": "knife"`
    handle_mouse_event(&mut app, make_mouse(AppMouseKind::LeftDown, 21 + 10, 1));
    assert_eq!(app.filter_text, "");
    assert_eq!(app.focused_pane, FocusPane::Details);
}

#[test]
fn hovering_a_link_marks_it() {
    let mut app = app_with_link();
    assert!(handle_mouse_event(&mut app, make_mouse(AppMouseKind::Move, 21 + 16, 3)));
    assert!(app.hovered_span_id.is_some());
    assert!(!handle_mouse_event(&mut app, make_mouse(AppMouseKind::Move, 21 + 16, 3)));
    assert!(handle_mouse_event(&mut app, make_mouse(AppMouseKind::Move, 0, 30)));
    assert_eq!(app.hovered_span_id, None);
}

#[test]
fn panes_are_found_filter_first() {
    let mut app = make_test_app(1);
    app.filter_area = Some(Rect::new(0, 0, 10, 3));
    app.list_area = Some(Rect::new(0, 0, 20, 20));
    assert_eq!(pane_at(&app, 1, 1), Some(FocusPane::Filter));
    assert_eq!(pane_at(&app, 15, 1), Some(FocusPane::List));
    assert_eq!(pane_at(&app, 30, 30), None);
}

#[test]
fn ctrl_g_asks_for_the_version_picker_and_ctrl_r_only_with_a_source() {
    let mut app = make_test_app(1);
    handle_key_event(&mut app, make_key_ctrl(AppKeyCode::Char('r')));
    assert!(app.pending_action.is_none());
    handle_key_event(&mut app, make_key_ctrl(AppKeyCode::Char('g')));
    assert!(matches!(app.pending_action, Some(AppAction::OpenVersionPicker)));
    app.source_dir = Some("data".to_string());
    handle_key_event(&mut app, make_key_ctrl(AppKeyCode::Char('r')));
    assert!(matches!(app.pending_action, Some(AppAction::ReloadSource)));
}

#[test]
fn history_browsing_restores_the_stashed_filter() {
    let mut app = make_test_app(1);
    app.focus_pane(FocusPane::Filter);
    for q in ["first", "second"] {
        app.filter_text = q.to_string();
        app.filter_cursor = q.chars().count();
        handle_key_event(&mut app, make_key(AppKeyCode::Enter));
        app.focus_pane(FocusPane::Filter);
    }
    app.filter_text = "draft".to_string();
    app.filter_cursor = 5;
    handle_key_event(&mut app, make_key(AppKeyCode::Up));
    assert_eq!(app.filter_text, "second");
    handle_key_event(&mut app, make_key(AppKeyCode::Up));
    assert_eq!(app.filter_text, "first");
    handle_key_event(&mut app, make_key(AppKeyCode::Down));
    assert_eq!(app.filter_text, "second");
    handle_key_event(&mut app, make_key(AppKeyCode::Down));
    assert_eq!(app.filter_text, "draft");
    assert_eq!(app.history_index, None);
}

#[test]
fn blank_and_repeated_filters_are_not_remembered() {
    let mut app = make_test_app(1);
    app.focus_pane(FocusPane::Filter);
    app.filter_text = "   ".to_string();
    handle_key_event(&mut app, make_key(AppKeyCode::Enter));
    assert!(app.filter_history.is_empty());
    app.focus_pane(FocusPane::Filter);
    app.filter_text = "x".to_string();
    handle_key_event(&mut app, make_key(AppKeyCode::Enter));
    app.focus_pane(FocusPane::Filter);
    handle_key_event(&mut app, make_key(AppKeyCode::Enter));
    assert_eq!(app.filter_history, vec!["x".to_string()]);
}

#[test]
fn typing_then_backspace_restores_the_filter() {
    let mut app = make_test_app(3);
    app.focus_pane(FocusPane::Filter);
    app.filter_text = "itm".to_string();
    app.filter_cursor = 2;
    handle_key_event(&mut app, make_key(AppKeyCode::Char('e')));
    assert_eq!(app.filter_text, "item");
    handle_key_event(&mut app, make_key(AppKeyCode::Backspace));
    assert_eq!(app.filter_text, "itm");
    assert_eq!(app.filter_cursor, 2);
}

#[test]
fn version_picker_takes_the_keys() {
    let mut app = make_test_app(1);
    app.version_entries = cbn_tui::app_core::indexing::build_version_entries_from_builds(Vec::new());
    app.show_version_picker = true;
    handle_key_event(&mut app, make_key(AppKeyCode::Down));
    assert_eq!(app.version_list_state.selected(), Some(0));
    handle_key_event(&mut app, make_key(AppKeyCode::Down));
    handle_key_event(&mut app, make_key(AppKeyCode::Enter));
    match &app.pending_action {
        Some(AppAction::SwitchVersion(v)) => assert_eq!(v, "nightly"),
        _ => panic!("expected a version switch"),
    }
    handle_key_event(&mut app, make_key(AppKeyCode::Esc));
    assert!(!app.show_version_picker);
}

#[test]
fn history_up_then_down_restores_typed_filter() {
    let mut app = make_app_with_items(vec![item_from(r#"{"id": "a", "type": "t"}"#)]);
    app.filter_history = vec!["t:gun".to_string(), "zombie".to_string()];
    app.input_mode = InputMode::Filtering;
    app.focused_pane = FocusPane::Filter;
    for c in "mo".chars() {
        handle_key_event(&mut app, make_key(AppKeyCode::Char(c)));
    }
    handle_key_event(&mut app, make_key(AppKeyCode::Up));
    assert_eq!(app.filter_text, "zombie");
    assert_eq!(app.history_index, Some(1));
    handle_key_event(&mut app, make_key(AppKeyCode::Down));
    assert_eq!(app.filter_text, "mo");
    assert_eq!(app.filter_cursor, 2);
    assert_eq!(app.history_index, None);
    assert_eq!(app.filter_history, vec!["t:gun".to_string(), "zombie".to_string()]);
}

#[test]
fn list_always_shows_filter_matches() {
    let mut app = make_app_with_items(vec![
        item_from(r#"{"id": "zombie", "type": "MONSTER"}"#),
        item_from(r#"{"id": "zombie_dog", "type": "MONSTER"}"#),
        item_from(r#"{"id": "pistol", "type": "GUN"}"#),
    ]);
    app.filter_history = vec!["t:gun".to_string()];
    let keys = [
        make_key(AppKeyCode::Char('z')),
        make_key(AppKeyCode::Char('o')),
        make_key(AppKeyCode::Char(' ')),
        make_key(AppKeyCode::Char('d')),
        make_key(AppKeyCode::Backspace),
        make_key(AppKeyCode::Up),
        make_key(AppKeyCode::Down),
        make_key_ctrl(AppKeyCode::Char('w')),
        make_key_ctrl(AppKeyCode::Char('u')),
        make_key(AppKeyCode::Esc),
        make_key(AppKeyCode::Char('p')),
        make_key(AppKeyCode::Enter),
        make_key(AppKeyCode::Down),
    ];
    for k in keys {
        handle_key_event(&mut app, k);
        let expected = cbn_tui::matcher::find_matches(&app.filter_text, &app.indexed_items, &app.search_index);
        assert_eq!(app.filtered_indices, expected, "filter {:?}", app.filter_text);
    }
}

#[test]
fn help_overlay_swallows_keys_until_closed() {
    let mut app = make_app_with_items(vec![
        item_from(r#"{"id": "a", "type": "t"}"#),
        item_from(r#"{"id": "b", "type": "t"}"#),
    ]);
    handle_key_event(&mut app, make_key(AppKeyCode::Char('?')));
    assert!(app.show_help);
    let selected = app.list_state.selected;
    for k in [make_key(AppKeyCode::Down), make_key(AppKeyCode::Char('q')), make_key(AppKeyCode::Char('x')), make_key(AppKeyCode::Enter)] {
        handle_key_event(&mut app, k);
        assert!(app.show_help);
        assert!(!app.should_quit);
        assert_eq!(app.list_state.selected, selected);
        assert!(app.filter_text.is_empty());
    }
    handle_key_event(&mut app, make_key(AppKeyCode::Esc));
    assert!(!app.show_help);
    handle_key_event(&mut app, make_key(AppKeyCode::Tab));
    assert_eq!(app.focused_pane, FocusPane::Details);
    assert_eq!(app.input_mode, InputMode::Normal);
    handle_key_event(&mut app, make_key(AppKeyCode::Tab));
    assert_eq!(app.focused_pane, FocusPane::Filter);
    assert_eq!(app.input_mode, InputMode::Filtering);
    handle_key_event(&mut app, make_key(AppKeyCode::BackTab));
    assert_eq!(app.focused_pane, FocusPane::Details);
}
