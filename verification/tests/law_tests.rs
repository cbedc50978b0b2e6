use cbn_tui::app_core::history::{history_from_text, history_to_text};
use cbn_tui::app_core::reducer::click_filter_value;
use cbn_tui::highlight::highlight_json_annotated;
use cbn_tui::matcher::{parse_search_term, split_query_terms, SearchTerm};
use cbn_tui::text::is_whitespace;
use cbn_tui::theme::Theme;

fn clicked_term(path: &str, clean: &str) -> String {
    let parsed = serde_json::from_str::<String>(clean).ok();
    format!("{}:{}", path, click_filter_value(clean, parsed))
}

#[test]
fn clicked_value_with_spaces_and_quotes_reads_back() {
    let term = clicked_term("name", "\"Bob's \\\\ big  gun\"");
    assert_eq!(term, "name:'Bob\\'s \\\\ big  gun'");
    let terms = split_query_terms(&term);
    assert_eq!(terms, vec![term.clone()]);
    assert_eq!(
        parse_search_term(&terms[0]),
        SearchTerm {
            classifier: Some("name".to_string()),
            pattern: "Bob's \\ big  gun".to_string(),
            exact: true,
        }
    );
}

#[test]
fn clicked_number_reads_back() {
    let term = clicked_term("bash.str_min", "30");
    assert_eq!(term, "bash.str_min:'30'");
    assert_eq!(split_query_terms(&term), vec![term.clone()]);
    assert_eq!(
        parse_search_term(&term),
        SearchTerm { classifier: Some("bash.str_min".to_string()), pattern: "30".to_string(), exact: true }
    );
}

#[test]
fn clicked_value_ending_in_backslash_reads_back() {
    let term = clicked_term("i", "\"a\\\\\"");
    assert_eq!(term, "i:'a\\\\'");
    assert_eq!(split_query_terms(&term), vec![term.clone()]);
    assert_eq!(parse_search_term(&term).pattern, "a\\");
}

#[test]
fn whitespace_is_unicode_white_space() {
    for c in [' ', '\t', '\n', '\r', '\u{b}', '\u{c}', '\u{85}', '\u{a0}', '\u{1680}', '\u{2000}', '\u{200a}', '\u{2028}', '\u{2029}', '\u{202f}', '\u{205f}', '\u{3000}'] {
        assert!(is_whitespace(c), "{:?}", c);
        assert_eq!(is_whitespace(c), c.is_whitespace());
    }
    for c in ['a', ':', '\'', '\u{200b}', '\u{180e}', '\u{feff}', '_'] {
        assert!(!is_whitespace(c), "{:?}", c);
        assert_eq!(is_whitespace(c), c.is_whitespace());
    }
}

#[test]
fn clicked_term_under_path_with_apostrophe_reads_back() {
    let term = clicked_term("it's", "\"a b\"");
    assert_eq!(term, "it's:'a b'");
    assert_eq!(split_query_terms(&term), vec![term.clone()]);
    assert_eq!(
        parse_search_term(&term),
        SearchTerm { classifier: Some("it's".to_string()), pattern: "a b".to_string(), exact: true }
    );
}

#[test]
fn history_text_round_trip_and_line_splitting() {
    let h = vec!["t:gun".to_string(), "zombie dog".to_string(), "'a\\'b' c\r".to_string()];
    let text = history_to_text(&h);
    assert_eq!(text, "t:gun\nzombie dog\n'a\\'b' c\r");
    assert_eq!(history_from_text(&text), h);
    assert!(history_to_text(&Vec::new()).is_empty());
    for t in ["a\n\n  \nb\r\nc\r", "", "\n", "x\r\n", "one", "  lead\ttab \n\r\n end"] {
        let expected: Vec<String> =
            t.lines().filter(|line| !line.trim().is_empty()).map(|s| s.to_string()).collect();
        assert_eq!(history_from_text(t), expected, "{:?}", t);
    }
}

#[test]
fn value_spans_are_numbered_from_one_across_lines() {
    let style = Theme::Dracula.config().json_style;
    let json = "{\n  \"a\": 1,\n  \"b\": [\n    \"x\",\n    true\n  ]\n}";
    let lines = highlight_json_annotated(json, &style);
    assert_eq!(lines.len(), 7);
    let ids: Vec<usize> = lines.iter().flat_map(|l| l.iter().filter_map(|sp| sp.span_id)).collect();
    assert_eq!(ids, vec![1, 2, 3]);
    let valued: Vec<String> = lines
        .iter()
        .flat_map(|l| l.iter().filter(|sp| sp.span_id.is_some()).map(|sp| sp.content.clone()))
        .collect();
    assert_eq!(valued, vec!["1".to_string(), "\"x\"".to_string(), "true".to_string()]);
}
