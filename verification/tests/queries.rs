use fragrance_catalog::catalog::Catalog;
use fragrance_catalog::error::Error;
use fragrance_catalog::query::{having_mood, names_matching, newest_first};
use fragrance_catalog::record::{Fragrance, FragrancePayload};
use fragrance_catalog::text::{any_of_contains, contains, to_decimal};

fn payload(name: &str, description: &str, moods: &[&str]) -> FragrancePayload {
    FragrancePayload {
        name: name.to_string(),
        description: description.to_string(),
        mood_enhancing_properties: moods.iter().map(|m| m.to_string()).collect(),
    }
}

fn record(id: u64, name: &str, moods: &[&str], created_at: u64) -> Fragrance {
    Fragrance {
        id,
        name: name.to_string(),
        description: "d".to_string(),
        mood_enhancing_properties: moods.iter().map(|m| m.to_string()).collect(),
        created_at,
        updated_at: None,
    }
}

fn ids(records: &[Fragrance]) -> Vec<u64> {
    records.iter().map(|r| r.id).collect()
}

fn rose_and_ocean() -> Catalog {
    let mut catalog = Catalog::open().unwrap();
    catalog.add_fragrance(payload("placeholder", "x", &[]), 0).unwrap();
    catalog.delete_fragrance(0).unwrap();
    assert_eq!(catalog.add_fragrance(payload("Rose Garden", "floral", &[]), 1).unwrap().id, 1);
    assert_eq!(catalog.add_fragrance(payload("Ocean", "rose-tinted", &[]), 2).unwrap().id, 2);
    catalog
}

#[test]
fn search_finds_the_keyword_in_names_and_descriptions() {
    let catalog = rose_and_ocean();
    let found = catalog.search_fragrance_names("rose".to_string()).unwrap();
    assert_eq!(found.len(), 1);
    assert!(found.contains(&"Ocean".to_string()));
    let found = catalog.search_fragrance_names("ose".to_string()).unwrap();
    assert_eq!(found.len(), 2);
    assert!(found.contains(&"Rose Garden".to_string()));
    assert!(found.contains(&"Ocean".to_string()));
    assert_eq!(found, vec!["Rose Garden".to_string(), "Ocean".to_string()]);
    assert_eq!(
        catalog.search_fragrance_names("Rose".to_string()),
        Ok(vec!["Rose Garden".to_string()])
    );
    assert_eq!(
        catalog.search_fragrance_names("floral".to_string()),
        Ok(vec!["Rose Garden".to_string()])
    );
}

#[test]
fn search_without_a_match_is_not_found() {
    let catalog = rose_and_ocean();
    assert_eq!(
        catalog.search_fragrance_names("zzz".to_string()),
        Err(Error::NotFound { msg: "No fragrances found with the keyword 'zzz'".to_string() })
    );
    let empty = Catalog::open().unwrap();
    assert_eq!(
        empty.search_fragrance_names("rose".to_string()),
        Err(Error::NotFound { msg: "No fragrances found with the keyword 'rose'".to_string() })
    );
}

#[test]
fn search_without_a_keyword_is_invalid() {
    let catalog = rose_and_ocean();
    assert_eq!(
        catalog.search_fragrance_names(String::new()),
        Err(Error::InvalidInput { msg: "Keyword cannot be empty".to_string() })
    );
}

fn moods() -> Catalog {
    let mut catalog = Catalog::open().unwrap();
    catalog.add_fragrance(payload("a", "calm", &["calming", "bold"]), 1).unwrap();
    catalog.add_fragrance(payload("calm", "b", &["relax"]), 2).unwrap();
    catalog.add_fragrance(payload("c", "c", &["fresh", "calm"]), 3).unwrap();
    catalog.add_fragrance(payload("d", "d", &[]), 4).unwrap();
    catalog.add_fragrance(payload("e", "e", &["Calm", "cal", "c alm"]), 5).unwrap();
    catalog
}

#[test]
fn filter_by_mood_returns_the_records_with_a_matching_property() {
    let catalog = moods();
    let found = catalog.filter_fragrances_by_mood("calm".to_string()).unwrap();
    assert_eq!(ids(&found), vec![0, 2]);
    assert_eq!(found[0], catalog.get_fragrance(0).unwrap());
    assert_eq!(found[1], catalog.get_fragrance(2).unwrap());
    for record in &found {
        assert!(record.mood_enhancing_properties.iter().any(|m| m.contains("calm")));
    }
    assert_eq!(ids(&catalog.filter_fragrances_by_mood("relax".to_string()).unwrap()), vec![1]);
    assert_eq!(ids(&catalog.filter_fragrances_by_mood("l".to_string()).unwrap()), vec![0, 1, 2, 4]);
}

#[test]
fn filter_by_mood_without_a_match_or_a_keyword_fails() {
    let catalog = moods();
    assert_eq!(
        catalog.filter_fragrances_by_mood("zen".to_string()),
        Err(Error::NotFound {
            msg: "No fragrances found with mood-enhancing properties related to 'zen'"
                .to_string()
        })
    );
    assert_eq!(
        catalog.filter_fragrances_by_mood(String::new()),
        Err(Error::InvalidInput { msg: "Keyword cannot be empty".to_string() })
    );
}

#[test]
fn recommendations_are_the_filter_by_mood() {
    let catalog = moods();
    for keyword in ["calm", "relax", "l", "bold", "Calm", " "] {
        assert_eq!(
            catalog.get_recommendations(keyword.to_string()),
            catalog.filter_fragrances_by_mood(keyword.to_string())
        );
    }
    assert_eq!(ids(&catalog.get_recommendations("calm".to_string()).unwrap()), vec![0, 2]);
    assert_eq!(
        catalog.get_recommendations("zen".to_string()),
        Err(Error::NotFound {
            msg: "No fragrances found with mood-enhancing properties related to 'zen'"
                .to_string()
        })
    );
    assert_eq!(
        catalog.get_recommendations(String::new()),
        Err(Error::InvalidInput { msg: "Mood Keyword cannot be empty".to_string() })
    );
}

#[test]
fn sort_lists_the_latest_first() {
    let mut catalog = Catalog::open().unwrap();
    catalog.add_fragrance(payload("a", "x", &[]), 10).unwrap();
    catalog.add_fragrance(payload("b", "x", &[]), 30).unwrap();
    catalog.add_fragrance(payload("c", "x", &[]), 20).unwrap();
    let sorted = catalog.sort_fragrances_by_creation_date();
    let times: Vec<u64> = sorted.iter().map(|r| r.created_at).collect();
    assert_eq!(times, vec![30, 20, 10]);
    assert_eq!(ids(&sorted), vec![1, 2, 0]);
    assert_eq!(ids(&catalog.list_fragrances()), vec![0, 1, 2]);
}

#[test]
fn sort_keeps_records_of_one_time_by_identifier() {
    let mut catalog = Catalog::open().unwrap();
    for now in [5, 9, 5, 1, 9, 5, 9] {
        catalog.add_fragrance(payload("a", "x", &[]), now).unwrap();
    }
    let sorted = catalog.sort_fragrances_by_creation_date();
    assert_eq!(ids(&sorted), vec![1, 4, 6, 0, 2, 5, 3]);
}

#[test]
fn newest_first_is_a_stable_sort() {
    let given = vec![
        record(7, "a", &[], 2),
        record(3, "b", &[], 8),
        record(9, "c", &[], 2),
        record(1, "d", &[], 8),
        record(1, "e", &[], 0),
        record(4, "f", &[], u64::MAX),
    ];
    let sorted = newest_first(given.clone());
    let names: Vec<&str> = sorted.iter().map(|r| r.name.as_str()).collect();
    assert_eq!(names, vec!["f", "b", "d", "a", "c", "e"]);
    for r in &given {
        assert_eq!(sorted.iter().filter(|s| *s == r).count(), 1);
    }
    assert_eq!(newest_first(Vec::new()), Vec::new());
    assert_eq!(newest_first(vec![record(1, "a", &[], 1)]), vec![record(1, "a", &[], 1)]);
}

#[test]
fn names_matching_and_having_mood_keep_the_order() {
    let records = vec![
        record(5, "Rose", &["calm"], 1),
        record(2, "Musk", &["bold"], 2),
        record(8, "Prose", &["calming", "bold"], 3),
    ];
    assert_eq!(names_matching(&records, "ose"), vec!["Rose".to_string(), "Prose".to_string()]);
    assert_eq!(names_matching(&records, "d").len(), 3);
    assert_eq!(names_matching(&records, "q"), Vec::<String>::new());
    assert_eq!(ids(&having_mood(&records, "bold")), vec![2, 8]);
    assert_eq!(ids(&having_mood(&records, "calm")), vec![5, 8]);
    assert_eq!(having_mood(&records, "zen"), Vec::new());
}

#[test]
fn contains_matches_bytes_exactly() {
    assert!(contains("Rose Garden", "Rose"));
    assert!(contains("Rose Garden", "Garden"));
    assert!(contains("Rose Garden", "e G"));
    assert!(contains("Rose Garden", "Rose Garden"));
    assert!(contains("Rose Garden", ""));
    assert!(contains("", ""));
    assert!(!contains("", "a"));
    assert!(!contains("Rose Garden", "rose"));
    assert!(!contains("Rose Garden", "Rose Gardens"));
    assert!(!contains("Rose Garden", "RoseGarden"));
    assert!(!contains("aab", "abb"));
    assert!(contains("aaab", "aab"));
    assert!(contains("émouvant", "é"));
    assert!(contains("émouvant", "mou"));
    assert!(!contains("emouvant", "é"));
    assert!(contains("香りの日本", "の日"));
}

#[test]
fn any_of_contains_looks_at_every_text() {
    let texts = vec!["fresh".to_string(), "calming".to_string()];
    assert!(any_of_contains(&texts, "calm"));
    assert!(any_of_contains(&texts, "resh"));
    assert!(!any_of_contains(&texts, "relax"));
    assert!(!any_of_contains(&Vec::new(), "calm"));
    assert!(!any_of_contains(&Vec::new(), ""));
}

#[test]
fn to_decimal_writes_the_digits() {
    assert_eq!(to_decimal(0), "0");
    assert_eq!(to_decimal(7), "7");
    assert_eq!(to_decimal(10), "10");
    assert_eq!(to_decimal(1234567890), "1234567890");
    assert_eq!(to_decimal(u64::MAX), "18446744073709551615");
}
