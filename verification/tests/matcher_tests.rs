use cbn_tui::json::JsonValue;
use cbn_tui::matcher::{
    find_matches, matches_field, matches_value, parse_search_term, split_query_terms, SearchTerm,
};
use cbn_tui::model::IndexedItem;
use cbn_tui::search_index::SearchIndex;

fn s(x: &str) -> JsonValue {
    JsonValue::Str(x.to_string())
}

fn n(x: &str) -> JsonValue {
    JsonValue::Number(x.to_string())
}

fn arr(items: Vec<JsonValue>) -> JsonValue {
    JsonValue::Array(items)
}

fn obj(entries: Vec<(&str, JsonValue)>) -> JsonValue {
    JsonValue::Object(entries.into_iter().map(|(k, v)| (k.to_string(), v)).collect())
}

fn item(value: JsonValue, id: &str, item_type: &str) -> IndexedItem {
    IndexedItem { value, id: id.to_string(), item_type: item_type.to_string() }
}

#[test]
fn test_parse_simple_term() {
    let term = parse_search_term("EMITTER");
    assert_eq!(
        term,
        SearchTerm { classifier: None, pattern: "EMITTER".to_string(), exact: false }
    );
}

#[test]
fn test_parse_quoted_term() {
    let term = parse_search_term("'EMITT'");
    assert_eq!(term, SearchTerm { classifier: None, pattern: "EMITT".to_string(), exact: true });
}

#[test]
fn test_parse_classifier_term() {
    let term = parse_search_term("id:f_alien");
    assert_eq!(
        term,
        SearchTerm {
            classifier: Some("id".to_string()),
            pattern: "f_alien".to_string(),
            exact: false
        }
    );
}

#[test]
fn test_parse_classifier_quoted() {
    let term = parse_search_term("str_min:'30'");
    assert_eq!(
        term,
        SearchTerm { classifier: Some("str_min".to_string()), pattern: "30".to_string(), exact: true }
    );
}

#[test]
fn test_parse_classifier_quoted_escaped_apostrophe() {
    let term = parse_search_term("snippet:'You wouldn\\'t buy'");
    assert_eq!(
        term,
        SearchTerm {
            classifier: Some("snippet".to_string()),
            pattern: "You wouldn't buy".to_string(),
            exact: true
        }
    );
}

#[test]
fn test_split_query_terms_preserves_quoted_spaces() {
    let terms = split_query_terms("id:test snippet:'exact phrase match'");
    assert_eq!(terms, vec!["id:test", "snippet:'exact phrase match'"]);
}

#[test]
fn test_split_query_terms_preserves_apostrophe_inside_quotes() {
    let terms = split_query_terms("snippet:'You wouldn't buy a car'");
    assert_eq!(terms, vec!["snippet:'You wouldn't buy a car'"]);
}

#[test]
fn test_split_query_terms_keeps_unquoted_apostrophe() {
    let terms = split_query_terms("id:wouldn't");
    assert_eq!(terms, vec!["id:wouldn't"]);
}

#[test]
fn test_matches_value_string_pattern() {
    assert!(matches_value(&s("EMITTER"), "emit", false));
    assert!(matches_value(&s("EMITTER"), "itter", false));
    assert!(matches_value(&s("EMITTER"), "emitter", false));
    assert!(!matches_value(&s("EMITTER"), "transmit", false));
}

#[test]
fn test_matches_value_string_exact() {
    assert!(matches_value(&s("EMITTER"), "EMITTER", true));
    assert!(!matches_value(&s("EMITTER"), "EMIT", true));
    assert!(!matches_value(&s("EMITTER"), "emitter", true));
}

#[test]
fn test_matches_value_number_pattern() {
    assert!(matches_value(&n("30"), "30", false));
    assert!(matches_value(&n("30"), "3", false));
    assert!(!matches_value(&n("30"), "40", false));
}

#[test]
fn test_matches_value_number_exact() {
    assert!(matches_value(&n("30"), "30", true));
    assert!(!matches_value(&n("30"), "3", true));
    assert!(!matches_value(&n("30"), "30.0", true));
}

#[test]
fn test_matches_value_array() {
    let a = arr(vec![s("TRANSPARENT"), s("EMITTER"), s("MINEABLE")]);
    assert!(matches_value(&a, "emitter", false));
    assert!(matches_value(&a, "emit", false));
    assert!(matches_value(&a, "itter", false));
    assert!(!matches_value(&a, "transmit", false));
}

#[test]
fn test_matches_value_array_exact() {
    let a = arr(vec![s("TRANSPARENT"), s("EMITTER"), s("MINEABLE")]);
    assert!(matches_value(&a, "EMITTER", true));
    assert!(!matches_value(&a, "EMIT", true));
}

#[test]
fn test_matches_field_simple() {
    let data = obj(vec![("id", s("f_alien_gasper")), ("type", s("furniture"))]);
    assert!(matches_field(&data, "id", "f_alien", false));
    assert!(matches_field(&data, "id", "alien", false));
    assert!(!matches_field(&data, "id", "f_alien", true));
    assert!(!matches_field(&data, "type", "table", false));
}

#[test]
fn test_matches_field_nested() {
    let data = obj(vec![("bash", obj(vec![("str_min", n("30")), ("str_max", n("60"))]))]);
    assert!(matches_field(&data, "bash.str_min", "30", false));
    assert!(matches_field(&data, "bash.str_min", "3", false));
    assert!(matches_field(&data, "bash.str_min", "30", true));
    assert!(!matches_field(&data, "bash.str_min", "3", true));
    assert!(!matches_field(&data, "bash.str_min", "60", false));
}

#[test]
fn test_matches_field_nonexistent() {
    let data = obj(vec![("id", s("test")), ("type", s("furniture"))]);
    assert!(!matches_field(&data, "name", "test", false));
    assert!(!matches_field(&data, "str_", "30", false));
}

fn gasper_flags() -> Vec<IndexedItem> {
    vec![item(
        obj(vec![
            ("id", s("f_alien_gasper")),
            ("flags", arr(vec![s("TRANSPARENT"), s("EMITTER"), s("MINEABLE")])),
        ]),
        "f_alien_gasper",
        "furniture",
    )]
}

#[test]
fn test_search_simple_pattern() {
    let items = gasper_flags();
    let index = SearchIndex::build(&items);
    assert!(!find_matches("EMITTER", &items, &index).is_empty());
    assert!(!find_matches("EMITT", &items, &index).is_empty());
    assert!(!find_matches("ITTER", &items, &index).is_empty());
}

#[test]
fn test_search_exact_match() {
    let items = gasper_flags();
    let index = SearchIndex::build(&items);
    assert!(find_matches("'EMITT'", &items, &index).is_empty(), "'EMITT' should not match");
    assert!(!find_matches("'EMITTER'", &items, &index).is_empty(), "'EMITTER' should match");
}

#[test]
fn test_search_classifier_exact_with_spaces() {
    let items = vec![item(obj(vec![("snippet", s("exact phrase match"))]), "test", "item")];
    let index = SearchIndex::build(&items);
    assert!(
        !find_matches("snippet:'exact phrase match'", &items, &index).is_empty(),
        "Exact classifier query with spaces should match"
    );
}

#[test]
fn test_search_classifier_exact_with_apostrophe() {
    let items = vec![item(obj(vec![("snippet", s("You wouldn't buy a car"))]), "test", "item")];
    let index = SearchIndex::build(&items);
    assert!(
        !find_matches("snippet:'You wouldn't buy a car'", &items, &index).is_empty(),
        "Exact classifier query with apostrophe should match"
    );
}

#[test]
fn test_search_classifier_exact_with_escaped_apostrophe() {
    let items = vec![item(obj(vec![("snippet", s("You wouldn't buy a car"))]), "test", "item")];
    let index = SearchIndex::build(&items);
    assert!(
        !find_matches("snippet:'You wouldn\\'t buy a car'", &items, &index).is_empty(),
        "Escaped apostrophe exact query should match"
    );
}

#[test]
fn test_search_classifier() {
    let items = vec![item(
        obj(vec![("id", s("f_alien_gasper")), ("type", s("furniture"))]),
        "f_alien_gasper",
        "furniture",
    )];
    let index = SearchIndex::build(&items);
    assert!(!find_matches("id:f_alien", &items, &index).is_empty());
    assert!(!find_matches("id:alien", &items, &index).is_empty());
    assert!(
        find_matches("id:'f_alien'", &items, &index).is_empty(),
        "Exact 'f_alien' should not match 'f_alien_gasper'"
    );
    assert!(!find_matches("type:furniture", &items, &index).is_empty());
}

#[test]
fn test_search_nested_field() {
    let items = vec![item(
        obj(vec![("bash", obj(vec![("str_min", n("30")), ("str_max", n("60"))]))]),
        "test",
        "furniture",
    )];
    let index = SearchIndex::build(&items);
    assert!(!find_matches("bash.str_min:30", &items, &index).is_empty());
    assert!(!find_matches("bash.str_min:3", &items, &index).is_empty(), "Pattern match should work");
    assert!(!find_matches("bash.str_min:'30'", &items, &index).is_empty());
    assert!(
        find_matches("bash.str_min:'3'", &items, &index).is_empty(),
        "Exact '3' should not match '30'"
    );
}

#[test]
fn test_search_invalid_classifier() {
    let items = vec![item(obj(vec![("bash", obj(vec![("str_min", n("30"))]))]), "test", "furniture")];
    let index = SearchIndex::build(&items);
    assert!(find_matches("str_:30", &items, &index).is_empty(), "Invalid classifier should not match");
}

#[test]
fn test_search_and_logic() {
    let items = vec![item(
        obj(vec![("id", s("f_alien_gasper")), ("flags", arr(vec![s("EMITTER")]))]),
        "f_alien_gasper",
        "furniture",
    )];
    let index = SearchIndex::build(&items);
    assert!(!find_matches("id:f_alien EMITTER", &items, &index).is_empty());
    assert!(find_matches("id:f_alien TRANSMIT", &items, &index).is_empty());
}

#[test]
fn test_all_user_examples() {
    let value = obj(vec![
        ("type", s("furniture")),
        ("id", s("f_alien_gasper")),
        ("name", s("gasping tube")),
        ("description", s("This is a meaty green stalactite...")),
        ("symbol", s("{")),
        ("color", s("green")),
        ("move_cost_mod", n("6")),
        ("coverage", n("40")),
        ("required_str", n("-1")),
        ("flags", arr(vec![s("TRANSPARENT"), s("EMITTER"), s("MINEABLE")])),
        ("emissions", arr(vec![s("emit_migo_atmosphere"), s("emit_hot_air_migo_blast")])),
        (
            "bash",
            obj(vec![
                ("str_min", n("30")),
                ("str_max", n("60")),
                ("sound", s("splorch!")),
                ("sound_fail", s("whump!")),
                ("furn_set", s("f_alien_scar_small")),
                (
                    "items",
                    arr(vec![obj(vec![
                        ("item", s("fetid_goop")),
                        ("count", arr(vec![n("15"), n("25")])),
                        ("prob", n("100")),
                    ])]),
                ),
                (
                    "ranged",
                    obj(vec![
                        ("reduction", arr(vec![n("15"), n("30")])),
                        ("destroy_threshold", n("60")),
                        ("block_unaimed_chance", s("25%")),
                    ]),
                ),
            ]),
        ),
    ]);
    let items = vec![item(value, "f_alien_gasper", "furniture")];
    let index = SearchIndex::build(&items);

    assert!(!find_matches("id:f_alien", &items, &index).is_empty(), "id:f_alien should match");
    assert!(!find_matches("id:f_alien EMITTER", &items, &index).is_empty(), "id:f_alien EMITTER should match");
    assert!(!find_matches("EMITTER", &items, &index).is_empty(), "EMITTER should match");
    assert!(!find_matches("EMITT", &items, &index).is_empty(), "EMITT should match");
    assert!(!find_matches("ITTER", &items, &index).is_empty(), "ITTER should match");
    assert!(!find_matches("bash.str_min:30", &items, &index).is_empty(), "str_min:30 should match");
    assert!(!find_matches("bash.str_min:3", &items, &index).is_empty(), "str_min:3 should match");
    assert!(!find_matches("bash.items.count:15", &items, &index).is_empty(), "count:15 should match");
    assert!(!find_matches("emissions:migo", &items, &index).is_empty(), "emissions:migo should match");
    assert!(
        !find_matches("bash.str_min:'30'", &items, &index).is_empty(),
        "str_min:'30' should match (number to string)"
    );

    assert!(find_matches("id:'f_alien'", &items, &index).is_empty(), "id:'f_alien' should NOT match");
    assert!(find_matches("'EMITT'", &items, &index).is_empty(), "'EMITT' should NOT match");
    assert!(
        find_matches("bash.str_min:'3'", &items, &index).is_empty(),
        "str_min:'3' should NOT match (exact '3' != '30')"
    );
    assert!(find_matches("str_:30", &items, &index).is_empty(), "str_:30 should NOT match");
    assert!(find_matches("bash.items.count:16", &items, &index).is_empty(), "count:16 should NOT match");
}

#[test]
fn test_search_with_index_shortcuts() {
    let items = vec![item(
        obj(vec![("id", s("test_item")), ("type", s("TOOL")), ("category", s("weapons"))]),
        "test_item",
        "TOOL",
    )];
    let index = SearchIndex::build(&items);
    assert!(!find_matches("i:test", &items, &index).is_empty(), "i:test shortcut should work");
    assert!(!find_matches("t:tool", &items, &index).is_empty(), "t:tool shortcut should work");
    assert!(!find_matches("c:weapons", &items, &index).is_empty(), "c:weapons shortcut should work");
}

#[test]
fn test_search_with_index_array_elements() {
    let items = vec![item(
        obj(vec![("id", s("test")), ("flags", arr(vec![s("EMITTER"), s("DANGEROUS")]))]),
        "test",
        "item",
    )];
    let index = SearchIndex::build(&items);
    assert!(!find_matches("EMITTER", &items, &index).is_empty(), "Should find EMITTER in array");
    assert!(
        !find_matches("dangerous", &items, &index).is_empty(),
        "Should find DANGEROUS in array (case insensitive)"
    );
}

#[test]
fn test_search_with_index_nested_fields() {
    let items = vec![
        item(
            obj(vec![
                ("id", s("f_alien_gasper")),
                (
                    "bash",
                    obj(vec![
                        ("str_min", n("30")),
                        ("items", arr(vec![obj(vec![("item", s("alien_resin")), ("count", n("15"))])])),
                    ]),
                ),
            ]),
            "f_alien_gasper",
            "furniture",
        ),
        item(obj(vec![("id", s("apple")), ("color", s("red"))]), "apple", "fruit"),
        item(obj(vec![("id", s("banana")), ("color", s("yellow"))]), "banana", "fruit"),
    ];
    let index = SearchIndex::build(&items);
    assert!(!find_matches("bash.str_min:30", &items, &index).is_empty(), "bash.str_min:30 should match");
    assert!(
        !find_matches("bash.items.count:15", &items, &index).is_empty(),
        "bash.items.count:15 should match"
    );
    assert!(
        !find_matches("alien_resin", &items, &index).is_empty(),
        "Should find 'alien_resin' in nested object"
    );
}

#[test]
fn test_search_intersection_optimization() {
    let mut items = Vec::new();
    for i in 0..100 {
        let id = format!("item_{}", i);
        let type_ = if i < 10 { "rare" } else { "common" };
        let cat = if i % 2 == 0 { "even" } else { "odd" };
        items.push(item(
            obj(vec![("id", s(&id)), ("type", s(type_)), ("category", s(cat))]),
            &id,
            type_,
        ));
    }
    let index = SearchIndex::build(&items);

    let results = find_matches("common even", &items, &index);
    assert_eq!(results.len(), 45);
    for idx in results {
        assert!(idx >= 10);
        assert_eq!(idx % 2, 0);
    }
    let results2 = find_matches("even common", &items, &index);
    assert_eq!(results2.len(), 45);
    let results3 = find_matches("rare even", &items, &index);
    assert_eq!(results3.len(), 5);
    for idx in results3 {
        assert!(idx < 10);
        assert_eq!(idx % 2, 0);
    }
}

#[test]
fn empty_query_selects_every_item_in_order() {
    let items = gasper_flags();
    let index = SearchIndex::build(&items);
    assert_eq!(find_matches("", &items, &index), vec![0]);
}

#[test]
fn shortcut_classifiers_select_like_full_names() {
    let items = vec![
        item(obj(vec![("id", s("knife")), ("type", s("TOOL")), ("category", s("weapons"))]), "knife", "TOOL"),
        item(obj(vec![("id", s("apple")), ("type", s("COMESTIBLE")), ("category", s("food"))]), "apple", "COMESTIBLE"),
    ];
    let index = SearchIndex::build(&items);
    assert_eq!(find_matches("i:kni", &items, &index), find_matches("id:kni", &items, &index));
    assert_eq!(find_matches("t:tool", &items, &index), find_matches("type:tool", &items, &index));
    assert_eq!(find_matches("c:food", &items, &index), find_matches("category:food", &items, &index));
    assert_eq!(find_matches("c:food", &items, &index), vec![1]);
}

#[test]
fn query_without_terms_selects_nothing() {
    let items = gasper_flags();
    let index = SearchIndex::build(&items);
    assert!(find_matches("   ", &items, &index).is_empty());
}

#[test]
fn search_ignores_case_outside_exact_field_matches() {
    let value = JsonValue::Object(vec![
        ("id".to_string(), JsonValue::Str("Zombie_Dog".to_string())),
        ("type".to_string(), JsonValue::Str("MONSTER".to_string())),
        ("name".to_string(), JsonValue::Str("Zombie Dog".to_string())),
    ]);
    let items = vec![item(value, "Zombie_Dog", "MONSTER")];
    let index = SearchIndex::build(&items);
    for (a, b) in [("zombie", "ZOMBIE"), ("t:monster", "t:MONSTER"), ("i:'zombie_dog'", "i:'ZOMBIE_DOG'"), ("name:dog", "name:DOG")] {
        assert_eq!(find_matches(a, &items, &index), find_matches(b, &items, &index), "{} vs {}", a, b);
        assert_eq!(find_matches(a, &items, &index), vec![0]);
    }
    assert_eq!(find_matches("name:'Zombie Dog'", &items, &index), vec![0]);
    assert!(find_matches("name:'zombie dog'", &items, &index).is_empty());
}

#[test]
fn exact_type_and_category_terms_ignore_case_but_not_partial_text() {
    let value = JsonValue::Object(vec![
        ("id".to_string(), JsonValue::Str("knife".to_string())),
        ("type".to_string(), JsonValue::Str("TOOL".to_string())),
        ("category".to_string(), JsonValue::Str("Weapons".to_string())),
    ]);
    let items = vec![item(value, "knife", "TOOL")];
    let index = SearchIndex::build(&items);
    assert_eq!(find_matches("type:'tool'", &items, &index), vec![0]);
    assert!(find_matches("type:'too'", &items, &index).is_empty());
    assert_eq!(find_matches("c:'WEAPONS'", &items, &index), vec![0]);
    assert!(find_matches("c:'weapon'", &items, &index).is_empty());
    assert_eq!(find_matches("c:weapon", &items, &index), vec![0]);
}

fn zombie_items() -> (Vec<IndexedItem>, SearchIndex) {
    let mk = |id: &str, ty: &str, cat: &str, name: &str| {
        item(
            JsonValue::Object(vec![
                ("id".to_string(), JsonValue::Str(id.to_string())),
                ("type".to_string(), JsonValue::Str(ty.to_string())),
                ("category".to_string(), JsonValue::Str(cat.to_string())),
                ("name".to_string(), JsonValue::Str(name.to_string())),
            ]),
            id,
            ty,
        )
    };
    let items = vec![
        mk("mon_zombie", "MONSTER", "undead", "Zombie"),
        mk("mon_zombie_dog", "MONSTER", "undead", "Zombie Dog"),
        mk("dog_food", "COMESTIBLE", "food", "Dog Food"),
    ];
    let index = SearchIndex::build(&items);
    (items, index)
}

#[test]
fn shortcut_classifiers_give_the_same_results_over_whole_queries() {
    let (items, index) = zombie_items();
    for p in ["zombie", "'mon_zombie'", "MONSTER", "undead", "'food'"] {
        let i = find_matches(&format!("i:{}", p), &items, &index);
        assert_eq!(i, find_matches(&format!("id:{}", p), &items, &index));
        assert_eq!(i, find_matches(&format!("abstract:{}", p), &items, &index));
        assert_eq!(find_matches(&format!("t:{}", p), &items, &index), find_matches(&format!("type:{}", p), &items, &index));
        assert_eq!(find_matches(&format!("c:{}", p), &items, &index), find_matches(&format!("category:{}", p), &items, &index));
    }
    assert_eq!(find_matches("i:zombie", &items, &index), vec![0, 1]);
}

#[test]
fn joined_queries_select_what_both_select() {
    let (items, index) = zombie_items();
    for (a, b) in [("dog", "zombie"), ("t:monster", "dog"), ("c:food", "'Dog Food'")] {
        let both: Vec<usize> = find_matches(a, &items, &index)
            .into_iter()
            .filter(|x| find_matches(b, &items, &index).contains(x))
            .collect();
        assert_eq!(find_matches(&format!("{} {}", a, b), &items, &index), both);
        assert_eq!(find_matches(&format!("{} {}", b, a), &items, &index), both);
    }
    assert_eq!(find_matches("dog zombie", &items, &index), vec![1]);
}

#[test]
fn ascii_queries_ignore_case_and_longer_patterns_narrow() {
    let (items, index) = zombie_items();
    let q = "zombie dog";
    assert_eq!(find_matches(&q.to_ascii_uppercase(), &items, &index), find_matches(q, &items, &index));
    assert_eq!(find_matches("ZoMbIe", &items, &index), vec![0, 1]);
    let short = index.search_words("zomb");
    for x in index.search_words("ZOMBIE") {
        assert!(short.contains(&x));
    }
    assert_eq!(index.search_words(""), vec![0, 1, 2]);
}
