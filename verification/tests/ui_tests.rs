use cbn_tui::app_core::layout::{centered_popup, padded, progress_modal_rect, Rect};
use cbn_tui::app_core::state::AppState;
use cbn_tui::highlight::{highlight_json_annotated, AnnotatedSpan, JsonSpanKind};
use cbn_tui::json::JsonValue;
use cbn_tui::model::IndexedItem;
use cbn_tui::search_index::SearchIndex;
use cbn_tui::theme::Theme;
use cbn_tui::ui::{
    display_name_for_item, fallback_display_name, filter_cursor_for_column, filter_cursor_offset,
    filter_horizontal_scroll, filter_viewport_offset, hit_test_details, progress_label_width,
    wrap_annotated_lines,
};

fn s(x: &str) -> JsonValue {
    JsonValue::Str(x.to_string())
}

fn obj(entries: Vec<(&str, JsonValue)>) -> JsonValue {
    JsonValue::Object(entries.into_iter().map(|(k, v)| (k.to_string(), v)).collect())
}

fn spans(json: &str) -> Vec<Vec<AnnotatedSpan>> {
    let style = Theme::Dracula.config().json_style;
    highlight_json_annotated(json, &style)
}

#[test]
fn test_annotated_spans_key_value_pair() {
    let annotated = spans(r#"  "range": 60"#);
    assert_eq!(annotated.len(), 1);
    let line = &annotated[0];
    assert_eq!(line.len(), 5);
    assert_eq!(line[0].kind, JsonSpanKind::Whitespace);
    assert_eq!(line[1].kind, JsonSpanKind::Key);
    assert_eq!(line[1].content, "\"range\"");
    assert_eq!(line[2].kind, JsonSpanKind::Punctuation);
    assert_eq!(line[2].content, ":");
    assert_eq!(line[4].kind, JsonSpanKind::NumberValue);
    assert_eq!(line[4].content, "60");
    assert_eq!(line[4].key_context, Some("range".to_string()));
}

#[test]
fn test_annotated_spans_string_value() {
    let annotated = spans(r#""copy-from": "base_rifle""#);
    let line = &annotated[0];
    assert_eq!(line[0].kind, JsonSpanKind::Key);
    assert_eq!(line[3].kind, JsonSpanKind::StringValue);
    assert_eq!(line[3].content, "\"base_rifle\"");
    assert_eq!(line[3].key_context, Some("copy-from".to_string()));
}

#[test]
fn test_annotated_spans_boolean() {
    let annotated = spans(r#""active": true"#);
    let line = &annotated[0];
    assert_eq!(line[3].kind, JsonSpanKind::BooleanValue);
    assert_eq!(line[3].content, "true");
    assert_eq!(line[3].key_context, Some("active".to_string()));
}

#[test]
fn test_annotated_spans_nested_object() {
    let annotated = spans("{ \"outer\": { \"inner\": 1 } }");
    let line = &annotated[0];
    let inner_key = line.iter().find(|s| s.content == "\"inner\"").unwrap();
    let one_value = line.iter().find(|s| s.content == "1").unwrap();
    assert_eq!(inner_key.kind, JsonSpanKind::Key);
    assert_eq!(one_value.kind, JsonSpanKind::NumberValue);
    assert_eq!(one_value.key_context, Some("outer.inner".to_string()));
}

#[test]
fn test_annotated_spans_array() {
    let annotated = spans(r#""tags": ["a", "b"]"#);
    let line = &annotated[0];
    let val_a = line.iter().find(|s| s.content == "\"a\"").unwrap();
    let val_b = line.iter().find(|s| s.content == "\"b\"").unwrap();
    assert_eq!(val_a.kind, JsonSpanKind::StringValue);
    assert_eq!(val_a.key_context, Some("tags".to_string()));
    assert_eq!(val_b.kind, JsonSpanKind::StringValue);
    assert_eq!(val_b.key_context, Some("tags".to_string()));
}

#[test]
fn test_annotated_spans_escaped_quotes() {
    let annotated = spans(r#""text": "he said \"hello\"""#);
    let line = &annotated[0];
    let val = line
        .iter()
        .find(|s| s.kind == JsonSpanKind::StringValue && s.content.contains("hello"))
        .unwrap();
    assert_eq!(val.content, "\"he said \\\"hello\\\"\"");
}

#[test]
fn test_annotated_spans_nested_array_context() {
    let annotated = spans(r#"{ "arr": [{"id": 1}, "x"] }"#);
    let mut val_1 = None;
    let mut val_x = None;
    for line in &annotated {
        for span in line {
            if span.content == "1" {
                val_1 = Some(span.key_context.clone());
            }
            if span.content == "\"x\"" {
                val_x = Some(span.key_context.clone());
            }
        }
    }
    assert_eq!(val_1.unwrap(), Some("arr.id".to_string()));
    assert_eq!(val_x.unwrap(), Some("arr".to_string()));
}

#[test]
fn test_to_text_preserves_rendering() {
    let annotated = spans(r#"{"id": "test", "num": 123}"#);
    let has_styles = annotated
        .iter()
        .any(|line| line.iter().any(|s| s.style != cbn_tui::theme::plain()));
    assert!(has_styles);
}

fn create_test_app() -> AppState {
    let items = vec![IndexedItem {
        value: obj(vec![("id", s("1"))]),
        id: "1".to_string(),
        item_type: "t".to_string(),
    }];
    let search_index = SearchIndex::build(&items);
    AppState::new(
        items,
        search_index,
        Theme::Dracula.config(),
        "v1".to_string(),
        "v1".to_string(),
        "v1".to_string(),
        false,
        1,
        None,
    )
}

#[test]
fn test_hit_test_outside_area_returns_none() {
    let annotated = spans(r#"{"id": 1}"#);
    let wrapped = wrap_annotated_lines(&annotated, 80);
    let mut app = create_test_app();
    app.details_wrapped_annotated = wrapped;
    app.details_content_area = Some(Rect::new(10, 10, 40, 10));
    assert!(hit_test_details(&app, 15, 5).is_none());
    assert!(hit_test_details(&app, 5, 15).is_none());
    assert!(hit_test_details(&app, 10, 15).is_none());
}

#[test]
fn test_hit_test_on_key_span() {
    let annotated = spans(r#""id": 1"#);
    let wrapped = wrap_annotated_lines(&annotated, 80);
    let mut app = create_test_app();
    app.details_wrapped_annotated = wrapped;
    app.details_content_area = Some(Rect::new(0, 0, 80, 20));
    let span = hit_test_details(&app, 2, 0).unwrap();
    assert_eq!(span.kind, JsonSpanKind::Key);
    assert_eq!(span.content, "\"id\"");
}

#[test]
fn test_hit_test_on_value_span() {
    let annotated = spans(r#""id": 1"#);
    let wrapped = wrap_annotated_lines(&annotated, 80);
    let mut app = create_test_app();
    app.details_wrapped_annotated = wrapped;
    app.details_content_area = Some(Rect::new(0, 0, 80, 20));
    let span = hit_test_details(&app, 7, 0).unwrap();
    assert_eq!(span.kind, JsonSpanKind::NumberValue);
    assert_eq!(span.content, "1");
    assert_eq!(span.key_context, Some("id".to_string()));
}

#[test]
fn test_filter_viewport_offset_keeps_cursor_visible() {
    let text = "abcdefghijklmnopqrstuvwxyz";
    assert_eq!(filter_viewport_offset(text, 0, 10), 0);
    assert_eq!(filter_viewport_offset(text, 9, 10), 0);
    assert_eq!(filter_viewport_offset(text, 10, 10), 1);
    assert_eq!(filter_viewport_offset(text, 15, 10), 6);
}

#[test]
fn test_filter_viewport_offset_handles_wide_characters() {
    let text = "🦀rust";
    assert_eq!(filter_viewport_offset(text, 1, 2), 1);
    assert_eq!(filter_viewport_offset(text, 2, 3), 1);
    assert_eq!(filter_viewport_offset(text, 5, 4), 3);
}

#[test]
fn test_filter_cursor_for_column_clamps_to_end() {
    assert_eq!(filter_cursor_for_column("abc", 0), 0);
    assert_eq!(filter_cursor_for_column("abc", 2), 2);
    assert_eq!(filter_cursor_for_column("abc", 50), 3);
}

#[test]
fn test_filter_cursor_for_column_handles_wide_characters() {
    assert_eq!(filter_cursor_for_column("🦀a", 0), 0);
    assert_eq!(filter_cursor_for_column("🦀a", 1), 0);
    assert_eq!(filter_cursor_for_column("🦀a", 2), 1);
    assert_eq!(filter_cursor_for_column("🦀a", 3), 2);
}

#[test]
fn horizontal_scroll_is_zero_for_a_zero_width_field() {
    assert_eq!(filter_horizontal_scroll("abcdef", 6, 0), 0);
    assert_eq!(filter_horizontal_scroll("abcdef", 6, 3), 4);
}

#[test]
fn cursor_offset_counts_control_characters_as_zero_cells() {
    assert_eq!(filter_cursor_offset("a\tb", 3), 2);
}

#[test]
fn wrapping_splits_spans_at_the_width_and_keeps_their_roles() {
    let annotated = spans(r#""abcdef": "xyz""#);
    let wrapped = wrap_annotated_lines(&annotated, 4);
    let texts: Vec<Vec<String>> =
        wrapped.iter().map(|l| l.iter().map(|s| s.content.clone()).collect()).collect();
    assert_eq!(
        texts,
        vec![
            vec!["\"abc".to_string()],
            vec!["def\"".to_string()],
            vec![":".to_string(), " ".to_string(), "\"x".to_string()],
            vec!["yz\"".to_string()],
        ]
    );
    assert_eq!(wrapped[1][0].kind, JsonSpanKind::Key);
    assert_eq!(wrapped[3][0].kind, JsonSpanKind::StringValue);
    assert_eq!(wrapped[3][0].span_id, wrapped[2][2].span_id);
}

#[test]
fn wrapping_to_zero_width_gives_no_lines_and_empty_lines_stay() {
    let annotated = spans("{\n\n}");
    assert!(wrap_annotated_lines(&annotated, 0).is_empty());
    let wrapped = wrap_annotated_lines(&annotated, 10);
    assert_eq!(wrapped.len(), 3);
    assert!(wrapped[1].is_empty());
}

#[test]
fn wrapping_places_a_too_wide_character_alone() {
    let annotated = spans("🦀a");
    let wrapped = wrap_annotated_lines(&annotated, 1);
    let texts: Vec<Vec<String>> =
        wrapped.iter().map(|l| l.iter().map(|s| s.content.clone()).collect()).collect();
    assert_eq!(texts, vec![vec!["🦀".to_string()], vec!["a".to_string()]]);
}

#[test]
fn display_names_follow_the_fallback_order() {
    let abs = obj(vec![("abstract", s("base_gun"))]);
    assert_eq!(display_name_for_item(&abs, "", "GUN"), "(abs) base_gun");
    assert_eq!(display_name_for_item(&abs, "rifle", "GUN"), "rifle");
    let named = obj(vec![("name", obj(vec![("str", s("apple"))]))]);
    assert_eq!(display_name_for_item(&named, "", "COMESTIBLE"), "apple");
    let recipe = obj(vec![("result", s("knife")), ("id_suffix", s("alt"))]);
    assert_eq!(display_name_for_item(&recipe, "", "recipe"), "result: knife (suffix: alt)");
    let uncraft = obj(vec![("result", s("knife"))]);
    assert_eq!(display_name_for_item(&uncraft, "", "uncraft"), "result: knife");
    let subst = obj(vec![("item", s("gloves"))]);
    assert_eq!(display_name_for_item(&subst, "", "profession_item_substitutions"), "item: gloves");
    assert_eq!(display_name_for_item(&obj(vec![]), "", "misc"), "(?)");
    assert_eq!(fallback_display_name(&recipe, "x", "recipe"), None);
    assert_eq!(fallback_display_name(&obj(vec![("result", s(""))]), "", "recipe"), None);
}

fn plain_span(text: &str) -> AnnotatedSpan {
    AnnotatedSpan {
        content: text.to_string(),
        style: cbn_tui::theme::plain(),
        kind: JsonSpanKind::StringValue,
        key_context: None,
        span_id: None,
    }
}

fn line_texts(lines: &[Vec<AnnotatedSpan>]) -> Vec<String> {
    lines.iter().map(|l| l.iter().map(|s| s.content.as_str()).collect::<String>()).collect()
}

#[test]
fn wrapped_lines_fit_the_width() {
    let lines = vec![vec![plain_span("abc"), plain_span("defg")], vec![], vec![plain_span("hi")]];
    let wrapped = wrap_annotated_lines(&lines, 3);
    assert_eq!(line_texts(&wrapped), vec!["abc", "def", "g", "", "hi"]);
    assert!(wrap_annotated_lines(&lines, 0).is_empty());
}

#[test]
fn wide_character_wider_than_width_stands_alone() {
    let lines = vec![vec![plain_span("a\u{65e5}b")]];
    let wrapped = wrap_annotated_lines(&lines, 1);
    assert_eq!(line_texts(&wrapped), vec!["a", "\u{65e5}", "b"]);
    let wrapped = wrap_annotated_lines(&lines, 2);
    assert_eq!(line_texts(&wrapped), vec!["a", "\u{65e5}", "b"]);
    let wrapped = wrap_annotated_lines(&lines, 3);
    assert_eq!(line_texts(&wrapped), vec!["a\u{65e5}", "b"]);
}

#[test]
fn click_at_cursor_column_restores_cursor() {
    let text = "a\u{65e5}b c";
    for k in 0..=text.chars().count() {
        let col = filter_cursor_offset(text, k);
        assert_eq!(filter_cursor_for_column(text, col), k, "cursor {}", k);
    }
    assert_eq!(filter_cursor_for_column(text, 2), 1);
    assert_eq!(filter_cursor_for_column(text, 100), 5);
}

#[test]
fn progress_modal_is_centered_and_sized_by_its_stages() {
    let area = Rect { x: 0, y: 0, width: 100, height: 40 };
    let modal = progress_modal_rect(area, 3).unwrap();
    assert_eq!(modal, Rect { x: 18, y: 16, width: 64, height: 7 });
    assert_eq!(progress_modal_rect(area, 0).unwrap(), Rect { x: 18, y: 17, width: 64, height: 5 });
    let small = Rect { x: 0, y: 0, width: 30, height: 6 };
    assert_eq!(progress_modal_rect(small, 5).unwrap(), Rect { x: 2, y: 1, width: 26, height: 4 });
    assert_eq!(progress_modal_rect(Rect { x: 0, y: 0, width: 4, height: 20 }, 1), None);
    assert_eq!(centered_popup(area, 0, 5), None);
    assert_eq!(centered_popup(area, 10, 4), Some(Rect { x: 45, y: 18, width: 10, height: 4 }));
    let inner = Rect { x: 19, y: 17, width: 62, height: 5 };
    assert_eq!(padded(inner), Rect { x: 20, y: 18, width: 60, height: 3 });
    assert_eq!(padded(Rect { x: 3, y: 4, width: 1, height: 0 }), Rect { x: 4, y: 5, width: 0, height: 0 });
}

#[test]
fn progress_label_column_fits_the_widest_label() {
    let labels = vec!["Downloading".to_string(), "Index".to_string()];
    assert_eq!(progress_label_width(60, &labels), (11, 1));
    assert_eq!(progress_label_width(20, &labels), (4, 1));
    assert_eq!(progress_label_width(16, &labels), (0, 0));
    assert_eq!(progress_label_width(10, &labels), (0, 0));
    assert_eq!(progress_label_width(60, &Vec::new()), (0, 0));
}
