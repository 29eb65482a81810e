use fragrance_catalog::allocator::issued;
use fragrance_catalog::catalog::Catalog;
use fragrance_catalog::error::Error;
use fragrance_catalog::record::{Fragrance, FragrancePayload};
use ic_stable_structures::cell::ValueError;

fn payload(name: &str, description: &str, moods: &[&str]) -> FragrancePayload {
    FragrancePayload {
        name: name.to_string(),
        description: description.to_string(),
        mood_enhancing_properties: moods.iter().map(|m| m.to_string()).collect(),
    }
}

fn ids(records: &[Fragrance]) -> Vec<u64> {
    records.iter().map(|r| r.id).collect()
}

#[test]
fn a_new_catalog_is_empty() {
    let catalog = Catalog::open().unwrap();
    assert_eq!(catalog.next_id(), 0);
    assert!(catalog.list_fragrances().is_empty());
    assert!(catalog.sort_fragrances_by_creation_date().is_empty());
    assert_eq!(catalog._get_fragrance(&0), None);
}

#[test]
fn add_then_get_returns_the_record() {
    let mut catalog = Catalog::open().unwrap();
    let created = catalog.add_fragrance(payload("Rose Garden", "floral", &["calm"]), 10).unwrap();
    assert_eq!(
        created,
        Fragrance {
            id: 0,
            name: "Rose Garden".to_string(),
            description: "floral".to_string(),
            mood_enhancing_properties: vec!["calm".to_string()],
            created_at: 10,
            updated_at: None,
        }
    );
    assert_eq!(catalog.next_id(), 1);
    assert_eq!(catalog.get_fragrance(0), Ok(created.clone()));
    assert_eq!(catalog._get_fragrance(&0), Some(created));
}

#[test]
fn get_of_a_missing_record_is_not_found() {
    let mut catalog = Catalog::open().unwrap();
    catalog.add_fragrance(payload("Rose Garden", "floral", &[]), 10).unwrap();
    assert_eq!(
        catalog.get_fragrance(1),
        Err(Error::NotFound { msg: "a fragrance with id=1 not found".to_string() })
    );
    assert_eq!(
        catalog.get_fragrance(18446744073709551615),
        Err(Error::NotFound {
            msg: "a fragrance with id=18446744073709551615 not found".to_string()
        })
    );
    assert_eq!(catalog._get_fragrance(&1), None);
}

#[test]
fn identifiers_ascend_and_are_not_reused_after_deletes() {
    let mut catalog = Catalog::open().unwrap();
    let a = catalog.add_fragrance(payload("a", "x", &[]), 1).unwrap();
    let b = catalog.add_fragrance(payload("b", "x", &[]), 2).unwrap();
    let c = catalog.add_fragrance(payload("c", "x", &[]), 3).unwrap();
    assert_eq!((a.id, b.id, c.id), (0, 1, 2));
    catalog.delete_fragrance(2).unwrap();
    catalog.delete_fragrance(0).unwrap();
    let d = catalog.add_fragrance(payload("d", "x", &[]), 4).unwrap();
    assert_eq!(d.id, 3);
    catalog.delete_fragrance(3).unwrap();
    catalog.delete_fragrance(1).unwrap();
    assert!(catalog.list_fragrances().is_empty());
    let e = catalog.add_fragrance(payload("e", "x", &[]), 5).unwrap();
    assert_eq!(e.id, 4);
    assert_eq!(catalog.next_id(), 5);
    assert_eq!(ids(&catalog.list_fragrances()), vec![4]);
}

#[test]
fn add_with_an_empty_name_is_invalid_and_changes_nothing() {
    let mut catalog = Catalog::open().unwrap();
    catalog.add_fragrance(payload("a", "x", &[]), 1).unwrap();
    let before = catalog.list_fragrances();
    let refused = catalog.add_fragrance(payload("", "floral", &["calm"]), 2);
    assert_eq!(
        refused,
        Err(Error::InvalidInput { msg: "Empty fields are not allowed.".to_string() })
    );
    assert_eq!(catalog.list_fragrances(), before);
    assert_eq!(catalog.list_fragrances().len(), 1);
    assert_eq!(catalog.next_id(), 1);
}

#[test]
fn add_with_an_empty_description_is_invalid_and_changes_nothing() {
    let mut catalog = Catalog::open().unwrap();
    let refused = catalog.add_fragrance(payload("Rose", "", &[]), 2);
    assert_eq!(
        refused,
        Err(Error::InvalidInput { msg: "Empty fields are not allowed.".to_string() })
    );
    assert!(catalog.list_fragrances().is_empty());
    assert_eq!(catalog.next_id(), 0);
    let created = catalog.add_fragrance(payload("Rose", "floral", &[]), 3).unwrap();
    assert_eq!(created.id, 0);
}

#[test]
fn update_of_a_missing_record_is_not_found() {
    let mut catalog = Catalog::open().unwrap();
    catalog.add_fragrance(payload("a", "x", &[]), 1).unwrap();
    let before = catalog.list_fragrances();
    assert_eq!(
        catalog.update_fragrance(7, payload("b", "y", &[]), 2),
        Err(Error::NotFound {
            msg: "couldn't update a fragrance with id=7. fragrance not found".to_string()
        })
    );
    assert_eq!(catalog.list_fragrances(), before);
}

#[test]
fn update_replaces_the_payload_fields_and_keeps_the_rest() {
    let mut catalog = Catalog::open().unwrap();
    catalog.add_fragrance(payload("a", "x", &["calm"]), 10).unwrap();
    catalog.add_fragrance(payload("b", "y", &[]), 11).unwrap();
    let updated = catalog.update_fragrance(0, payload("Amber", "warm", &["cosy", "bold"]), 25);
    let expected = Fragrance {
        id: 0,
        name: "Amber".to_string(),
        description: "warm".to_string(),
        mood_enhancing_properties: vec!["cosy".to_string(), "bold".to_string()],
        created_at: 10,
        updated_at: Some(25),
    };
    assert_eq!(updated, Ok(expected.clone()));
    assert!(expected.updated_at.unwrap() >= expected.created_at);
    assert_eq!(catalog.get_fragrance(0), Ok(expected));
    assert_eq!(catalog.get_fragrance(1).unwrap().updated_at, None);
    assert_eq!(catalog.next_id(), 2);
    let again = catalog.update_fragrance(0, payload("Amber II", "warmer", &[]), 30).unwrap();
    assert_eq!(again.created_at, 10);
    assert_eq!(again.updated_at, Some(30));
    assert_eq!(catalog.list_fragrances().len(), 2);
}

#[test]
fn update_with_an_empty_field_is_invalid_even_for_a_missing_record() {
    let mut catalog = Catalog::open().unwrap();
    let created = catalog.add_fragrance(payload("a", "x", &[]), 1).unwrap();
    let invalid = Err(Error::InvalidInput { msg: "Empty fields are not allowed.".to_string() });
    assert_eq!(catalog.update_fragrance(0, payload("", "y", &[]), 2), invalid);
    assert_eq!(catalog.update_fragrance(0, payload("b", "", &[]), 2), invalid);
    assert_eq!(catalog.update_fragrance(9, payload("", "", &[]), 2), invalid);
    assert_eq!(catalog.get_fragrance(0), Ok(created));
}

#[test]
fn delete_returns_the_record_and_a_second_delete_is_not_found() {
    let mut catalog = Catalog::open().unwrap();
    let created = catalog.add_fragrance(payload("a", "x", &["calm"]), 1).unwrap();
    catalog.add_fragrance(payload("b", "y", &[]), 2).unwrap();
    assert_eq!(catalog.delete_fragrance(0), Ok(created));
    let missing = Err(Error::NotFound {
        msg: "couldn't delete a fragrance with id=0. fragrance not found.".to_string(),
    });
    assert_eq!(catalog.delete_fragrance(0), missing);
    assert_eq!(catalog.delete_fragrance(0), missing);
    assert_eq!(ids(&catalog.list_fragrances()), vec![1]);
    assert_eq!(
        catalog.get_fragrance(0),
        Err(Error::NotFound { msg: "a fragrance with id=0 not found".to_string() })
    );
}

#[test]
fn do_insert_puts_a_record_under_its_identifier() {
    let mut catalog = Catalog::open().unwrap();
    let mut record = catalog.add_fragrance(payload("a", "x", &[]), 1).unwrap();
    catalog.add_fragrance(payload("b", "y", &[]), 2).unwrap();
    record.name = "changed".to_string();
    record.mood_enhancing_properties = vec!["calm".to_string()];
    catalog.do_insert_fragrance(&record);
    assert_eq!(catalog.get_fragrance(0), Ok(record.clone()));
    catalog.do_insert_fragrance(&record);
    assert_eq!(catalog.list_fragrances().len(), 2);
    assert_eq!(catalog.get_fragrance(0), Ok(record));
    assert_eq!(catalog.get_fragrance(1).unwrap().name, "b");
}

#[test]
fn list_returns_every_record_by_ascending_identifier() {
    let mut catalog = Catalog::open().unwrap();
    for i in 0..300u64 {
        let created = catalog
            .add_fragrance(payload(&format!("name {}", i), "x", &["calm"]), 1000 - i)
            .unwrap();
        assert_eq!(created.id, i);
    }
    for i in (0..300u64).filter(|i| i % 3 == 1) {
        assert_eq!(catalog.delete_fragrance(i).unwrap().name, format!("name {}", i));
    }
    let listed = catalog.list_fragrances();
    let expected: Vec<u64> = (0..300u64).filter(|i| i % 3 != 1).collect();
    assert_eq!(ids(&listed), expected);
    for record in &listed {
        assert_eq!(record.name, format!("name {}", record.id));
        assert_eq!(record.created_at, 1000 - record.id);
        assert_eq!(catalog.get_fragrance(record.id).as_ref(), Ok(record));
    }
    assert_eq!(catalog.next_id(), 300);
}

#[test]
fn a_catalog_comes_back_from_its_memory() {
    let mut catalog = Catalog::open().unwrap();
    catalog.add_fragrance(payload("a", "x", &["calm"]), 1).unwrap();
    catalog.add_fragrance(payload("b", "y", &[]), 2).unwrap();
    catalog.add_fragrance(payload("c", "z", &[]), 3).unwrap();
    catalog.delete_fragrance(2).unwrap();
    catalog.update_fragrance(1, payload("B", "Y", &["bold"]), 4).unwrap();
    let before = catalog.list_fragrances();
    let memory = catalog.checkpoint();
    let mut again = Catalog::load(memory).unwrap();
    assert_eq!(again.list_fragrances(), before);
    assert_eq!(again.next_id(), 3);
    assert_eq!(again.add_fragrance(payload("d", "w", &[]), 5).unwrap().id, 3);
}

#[test]
fn a_stuck_counter_is_an_internal_error() {
    assert_eq!(issued(Ok(41)), Ok(41));
    assert_eq!(
        issued(Err(ValueError::ValueTooLarge { value_size: 8 })),
        Err(Error::Internal { msg: "Cannot increment id counter".to_string() })
    );
}

#[test]
fn the_message_of_an_error_is_its_text() {
    let error = Error::NotFound { msg: "a".to_string() };
    assert_eq!(error.message(), "a");
    let error = Error::InvalidInput { msg: "b".to_string() };
    assert_eq!(error.message(), "b");
    let error = Error::Internal { msg: "c".to_string() };
    assert_eq!(error.message(), "c");
}

#[test]
fn a_record_of_the_largest_size_is_stored_and_read() {
    let mut catalog = Catalog::open().unwrap();
    let name = "n".repeat(1024 - 21 - 4 - 4 - 1);
    let largest = payload(&name, "d", &[]);
    assert!(largest.fits_new());
    assert!(!largest.fits_updated());
    let created = catalog.add_fragrance(largest, 7).unwrap();
    assert_eq!(created.to_bytes().len(), 1024);
    assert_eq!(catalog.get_fragrance(0), Ok(created));
    let name = "n".repeat(1024 - 29 - 4 - 4 - 1);
    let largest = payload(&name, "d", &[]);
    assert!(largest.fits_updated());
    let updated = catalog.update_fragrance(0, largest, 8).unwrap();
    assert_eq!(updated.to_bytes().len(), 1024);
    assert_eq!(catalog.get_fragrance(0), Ok(updated));
}
