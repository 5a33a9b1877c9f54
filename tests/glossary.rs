use paradox_mod_translator::glossary::{Glossary, GlossaryItem, RawGlossaryEntry};

fn item(en: Option<&str>, zh: Option<&str>) -> GlossaryItem {
    let mut it = GlossaryItem::empty();
    it.english = en.map(|s| s.to_string());
    it.simp_chinese = zh.map(|s| s.to_string());
    it
}

fn record(id: &str, fields: &[(&str, &str)]) -> RawGlossaryEntry {
    RawGlossaryEntry {
        id: id.to_string(),
        fields: Some(fields.iter().map(|(k, v)| (k.to_string(), Some(v.to_string()))).collect()),
    }
}

fn energy_minerals() -> Glossary {
    Glossary::from_raw_entries(&vec![
        record("energy", &[("1", "energy"), ("2", "能量")]),
        record("minerals", &[("1", "minerals"), ("2", "矿物")]),
    ])
}

#[test]
fn test_glossary_item_deserialize_new_format() {
    let fields = vec![
        ("1".to_string(), Some("energy".to_string())),
        ("2".to_string(), Some("能量".to_string())),
        ("3".to_string(), Some("energía".to_string())),
    ];
    let item = GlossaryItem::from_numbered_fields(&fields).unwrap();
    assert_eq!(item.english, Some("energy".to_string()));
    assert_eq!(item.simp_chinese, Some("能量".to_string()));
    assert_eq!(item.spanish, Some("energía".to_string()));
    assert!(item.french.is_none());
}

#[test]
fn test_glossary_item_deserialize_empty_fails() {
    let result = GlossaryItem::from_numbered_fields(&vec![]);
    assert!(result.is_none());
}

#[test]
fn test_glossary_item_get() {
    let item = GlossaryItem {
        english: Some("energy".to_string()),
        simp_chinese: Some("能量".to_string()),
        spanish: None,
        french: None,
        braz_por: None,
        russian: None,
        german: None,
        japanese: None,
        korean: None,
        polish: None,
    };
    assert_eq!(item.get("english"), Some("energy"));
    assert_eq!(item.get("simp_chinese"), Some("能量"));
    assert_eq!(item.get("spanish"), None);
    assert_eq!(item.get("invalid"), None);
}

#[test]
fn test_glossary_load() {
    let glossary = Glossary::from_raw_entries(&vec![
        record("energy", &[("1", "energy"), ("2", "能量"), ("3", "energía")]),
        record("minerals", &[("1", "minerals"), ("2", "矿物")]),
    ]);
    assert_eq!(glossary.len(), 2);

    let entries = glossary.entries();
    let energy_item = &entries.iter().find(|(k, _)| k == "energy").unwrap().1;
    assert_eq!(energy_item.english, Some("energy".to_string()));
    assert_eq!(energy_item.simp_chinese, Some("能量".to_string()));
    assert_eq!(energy_item.spanish, Some("energía".to_string()));
}

#[test]
fn test_glossary_translation_map() {
    let glossary = energy_minerals();
    let map = glossary.get_translation_map("english", "simp_chinese");
    let get = |k: &str| map.iter().find(|(s, _)| s == k).map(|(_, t)| t.clone());
    assert_eq!(get("energy"), Some("能量".to_string()));
    assert_eq!(get("minerals"), Some("矿物".to_string()));
    assert_eq!(map.len(), 2);
}

#[test]
fn test_glossary_apply() {
    let glossary = energy_minerals();
    let text = "We need more energy and minerals.";
    let translated = glossary.apply(text, "english", "simp_chinese");
    assert_eq!(translated, "We need more 能量 and 矿物.");
}

#[test]
fn translation_map_skips_entries_without_both_languages() {
    let mut g = Glossary::new();
    g.insert("energy".to_string(), item(Some("energy"), Some("能量")));
    g.insert("minerals".to_string(), item(Some("minerals"), None));
    let map = g.get_translation_map("english", "simp_chinese");
    assert_eq!(map, vec![("energy".to_string(), "能量".to_string())]);
    let back = g.get_translation_map("simp_chinese", "english");
    assert_eq!(back, vec![("能量".to_string(), "energy".to_string())]);
}

#[test]
fn malformed_and_empty_records_are_skipped() {
    let g = Glossary::from_raw_entries(&vec![
        RawGlossaryEntry { id: "broken".to_string(), fields: None },
        record("nothing", &[("x", "y")]),
        record("energy", &[("1", "energy"), ("99", "ignored")]),
    ]);
    assert_eq!(g.len(), 1);
    assert_eq!(g.entries()[0].0, "energy");
    assert!(!g.is_empty());
}

#[test]
fn merge_later_glossary_wins() {
    let mut a = Glossary::new();
    a.insert("energy".to_string(), item(Some("energy"), Some("能源")));
    a.insert("food".to_string(), item(Some("food"), Some("食物")));
    let mut b = Glossary::new();
    b.insert("energy".to_string(), item(Some("energy"), Some("能量")));
    let m = Glossary::merge_glossaries(&[a, b]);
    assert_eq!(m.len(), 2);
    assert_eq!(m.entries()[0].0, "energy");
    assert_eq!(m.entries()[0].1.get("simp_chinese"), Some("能量"));
    assert_eq!(m.entries()[1].1.get("simp_chinese"), Some("食物"));
}

#[test]
fn csv_rows_follow_requested_order() {
    let g = energy_minerals();
    let csv = g.to_csv("english", "simp_chinese", &["minerals", "unknown", "energy"]);
    assert_eq!(csv, "english,simp_chinese\nminerals,矿物\nenergy,能量\n");
}

#[test]
fn terms_found_case_insensitively() {
    let g = energy_minerals();
    let found = g.find_terms_in_text("MORE ENERGY PLEASE", "english");
    assert_eq!(found, vec!["energy".to_string()]);
    let lowered = g.find_terms_in_lowered("more minerals", "english");
    assert_eq!(lowered, vec!["minerals".to_string()]);
    let mut caps = Glossary::new();
    caps.insert("a".to_string(), item(Some("Energy"), Some("能量")));
    caps.insert("b".to_string(), item(Some("Energy"), Some("能源")));
    assert_eq!(caps.find_terms_in_text("more energy", "english"), vec!["Energy".to_string()]);
}

#[test]
fn all_terms_lists_present_languages() {
    let it = item(Some("energy"), Some("能量"));
    assert_eq!(it.all_terms(), vec![("english", "energy"), ("simp_chinese", "能量")]);
    assert!(it.has_language("english"));
    assert!(!it.has_language("polish"));
}

#[test]
fn empty_texts_do_not_make_an_entry() {
    let only_empty = vec![("1".to_string(), Some(String::new()))];
    assert!(GlossaryItem::from_numbered_fields(&only_empty).is_none());
    let bad_value = vec![("1".to_string(), Some("energy".to_string())), ("2".to_string(), None)];
    assert!(GlossaryItem::from_numbered_fields(&bad_value).is_none());
    let unknown_bad = vec![("1".to_string(), Some("energy".to_string())), ("x".to_string(), None)];
    assert!(GlossaryItem::from_numbered_fields(&unknown_bad).is_some());
}

#[test]
fn csv_rows_found_by_source_term() {
    let mut g = Glossary::new();
    g.insert("x".to_string(), item(Some("energy"), Some("能量")));
    assert_eq!(g.to_csv("english", "simp_chinese", &["energy", "x"]), "english,simp_chinese\nenergy,能量\n");
    assert_eq!(g.to_csv("simp_chinese", "english", &["能量"]), "simp_chinese,english\n能量,energy\n");
}
