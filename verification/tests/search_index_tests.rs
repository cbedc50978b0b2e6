use cbn_tui::json::JsonValue;
use cbn_tui::model::IndexedItem;
use cbn_tui::search_index::SearchIndex;

fn s(x: &str) -> JsonValue {
    JsonValue::Str(x.to_string())
}

fn obj(entries: Vec<(&str, JsonValue)>) -> JsonValue {
    JsonValue::Object(entries.into_iter().map(|(k, v)| (k.to_string(), v)).collect())
}

fn arr(items: Vec<JsonValue>) -> JsonValue {
    JsonValue::Array(items)
}

fn item(value: JsonValue, id: &str, item_type: &str) -> IndexedItem {
    IndexedItem { value, id: id.to_string(), item_type: item_type.to_string() }
}

#[test]
fn test_index_building() {
    let items = vec![
        item(obj(vec![("id", s("test_item")), ("type", s("TOOL")), ("category", s("weapons"))]), "test_item", "TOOL"),
        item(obj(vec![("abstract", s("abstract_base")), ("type", s("MONSTER"))]), "", "MONSTER"),
    ];
    let index = SearchIndex::build(&items);
    assert!(index.by_id.contains_key("test_item"));
    assert!(index.by_id.contains_key("abstract_base"));
    assert!(index.by_type.contains_key("tool"));
    assert!(index.by_type.contains_key("monster"));
    assert!(index.by_category.contains_key("weapons"));
    assert!(!index.word_index.is_empty(), "Word index should not be empty");
    assert!(index.word_index.contains_key("weapons"));
}

fn two_tools() -> Vec<IndexedItem> {
    vec![
        item(obj(vec![("id", s("test_item")), ("type", s("TOOL"))]), "test_item", "TOOL"),
        item(obj(vec![("id", s("test_weapon")), ("type", s("TOOL"))]), "test_weapon", "TOOL"),
    ]
}

#[test]
fn test_lookup_exact() {
    let items = two_tools();
    let index = SearchIndex::build(&items);
    let results = index.lookup_field(&index.by_id, "test_item", true);
    assert_eq!(results.len(), 1);
    assert!(results.contains(&0));
}

#[test]
fn test_lookup_pattern() {
    let items = two_tools();
    let index = SearchIndex::build(&items);
    let results = index.lookup_field(&index.by_id, "test", false);
    assert_eq!(results.len(), 2);
}

#[test]
fn test_word_search() {
    let items = vec![item(
        obj(vec![("id", s("zombie_soldier")), ("type", s("MONSTER")), ("name", s("Zombie Soldier"))]),
        "zombie_soldier",
        "MONSTER",
    )];
    let index = SearchIndex::build(&items);
    assert_eq!(index.search_words("zombie").len(), 1);
    assert_eq!(index.search_words("soldier").len(), 1);
}

#[test]
fn test_index_performance() {
    let mut items = Vec::new();
    for i in 0..10_000 {
        let id = format!("item_{}", i);
        items.push(item(
            obj(vec![
                ("id", s(&id)),
                ("type", s("GENERIC")),
                (
                    "description",
                    s("This is a long description with many repeated words words words. The zombie is a zombie and the robot is a robot. Repetition is key for testing performance."),
                ),
                (
                    "nested",
                    obj(vec![
                        ("array", arr(vec![s("more"), s("words"), s("repeated"), s("words")])),
                        ("object", obj(vec![("key", s("even more repeated words"))])),
                    ]),
                ),
            ]),
            &id,
            "GENERIC",
        ));
    }
    let index = SearchIndex::build(&items);
    assert_eq!(index.search_words("zombie").len(), 10_000);
}

#[test]
fn exact_id_lookup_is_case_insensitive() {
    let items = two_tools();
    let index = SearchIndex::build(&items);
    assert_eq!(index.lookup_field(&index.by_id, "TEST_WEAPON", true), vec![1]);
    assert_eq!(index.lookup_field(&index.by_type, "tool", true), vec![0, 1]);
}

#[test]
fn words_split_at_punctuation_but_keep_hyphens_and_underscores() {
    let items = vec![item(obj(vec![("id", s("x")), ("description", s("Fetid-goop, alien_resin a"))]), "x", "t")];
    let index = SearchIndex::build(&items);
    assert!(index.word_index.contains_key("fetid-goop"));
    assert!(index.word_index.contains_key("alien_resin"));
    assert!(!index.word_index.contains_key("fetid"));
    assert!(!index.word_index.contains_key("a"));
}
