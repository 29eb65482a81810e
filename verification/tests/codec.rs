use fragrance_catalog::codec::MAX_SIZE;
use fragrance_catalog::record::{Fragrance, FragrancePayload};

fn record(
    id: u64,
    name: &str,
    description: &str,
    moods: &[&str],
    created_at: u64,
    updated_at: Option<u64>,
) -> Fragrance {
    Fragrance {
        id,
        name: name.to_string(),
        description: description.to_string(),
        mood_enhancing_properties: moods.iter().map(|m| m.to_string()).collect(),
        created_at,
        updated_at,
    }
}

#[test]
fn the_stored_form_of_a_small_record() {
    let bytes = record(1, "a", "b", &["c"], 2, Some(3)).to_bytes();
    let expected: Vec<u8> = vec![
        1, 0, 0, 0, 0, 0, 0, 0, // identifier
        2, 0, 0, 0, 0, 0, 0, 0, // creation time
        1, 3, 0, 0, 0, 0, 0, 0, 0, // update time
        1, 0, 0, 0, 97, // name
        1, 0, 0, 0, 98, // description
        1, 0, 0, 0, // number of mood properties
        1, 0, 0, 0, 99, // mood property
    ];
    assert_eq!(bytes, expected);
}

#[test]
fn the_stored_form_without_update_time_and_properties() {
    let bytes = record(0x0102030405060708, "é", "xy", &[], u64::MAX, None).to_bytes();
    let expected: Vec<u8> = vec![
        8, 7, 6, 5, 4, 3, 2, 1, // identifier
        255, 255, 255, 255, 255, 255, 255, 255, // creation time
        0, // no update time
        2, 0, 0, 0, 0xc3, 0xa9, // name
        2, 0, 0, 0, 120, 121, // description
        0, 0, 0, 0, // number of mood properties
    ];
    assert_eq!(bytes, expected);
}

#[test]
fn decoding_the_stored_form_gives_the_record_back() {
    let records = vec![
        record(0, "Rose Garden", "floral", &["calm", "romantic"], 10, None),
        record(1, "Ocean", "rose-tinted", &[], 20, Some(30)),
        record(u64::MAX, "日本の香り", "émouvant — 🌸", &["", "ü", "calming"], 0, Some(1)),
        record(2, "x", "y", &["z"], u64::MAX, Some(u64::MAX)),
        record(7, "", "", &[], 5, Some(0)),
        Fragrance::default(),
    ];
    for r in records {
        assert!(r.fits());
        let bytes = r.to_bytes();
        assert!(bytes.len() <= MAX_SIZE);
        assert_eq!(Fragrance::from_bytes(&bytes), Some(r));
    }
}

#[test]
fn decoding_refuses_what_is_no_stored_form() {
    let good = record(1, "a", "b", &["c"], 2, Some(3)).to_bytes();
    assert!(Fragrance::from_bytes(&good).is_some());
    assert_eq!(Fragrance::from_bytes(&[]), None);
    for cut in 0..good.len() {
        assert_eq!(Fragrance::from_bytes(&good[..cut]), None);
    }
    let mut trailing = good.clone();
    trailing.push(0);
    assert_eq!(Fragrance::from_bytes(&trailing), None);
    let mut bad_tag = good.clone();
    bad_tag[16] = 2;
    assert_eq!(Fragrance::from_bytes(&bad_tag), None);
    let mut bad_text = good.clone();
    bad_text[29] = 0xff;
    assert_eq!(Fragrance::from_bytes(&bad_text), None);
    let mut bad_count = good.clone();
    bad_count[35] = 2;
    assert_eq!(Fragrance::from_bytes(&bad_count), None);
    let mut long_text = good.clone();
    long_text[25] = 200;
    assert_eq!(Fragrance::from_bytes(&long_text), None);
}

#[test]
fn decoding_reads_text_as_utf8() {
    let mut bytes = record(1, "ab", "b", &[], 2, None).to_bytes();
    assert_eq!(&bytes[21..23], &[97, 98]);
    bytes[21] = 0xc3;
    bytes[22] = 0xa9;
    assert_eq!(Fragrance::from_bytes(&bytes).unwrap().name, "é");
    bytes[22] = 0x28;
    assert_eq!(Fragrance::from_bytes(&bytes), None);
}

#[test]
fn a_record_fits_up_to_the_largest_size() {
    // 21 bytes of numbers, then 4 + n, 4 + 1 and 4 + 1 bytes of texts
    let at_limit = record(1, &"n".repeat(1024 - 21 - 4 - 5 - 5), "d", &["m"], 2, None);
    assert!(at_limit.fits());
    assert_eq!(at_limit.to_bytes().len(), 1024);
    let over = record(1, &"n".repeat(1024 - 21 - 4 - 5 - 5 + 1), "d", &["m"], 2, None);
    assert!(!over.fits());
    let updated = record(1, &"n".repeat(1024 - 21 - 4 - 5 - 5), "d", &["m"], 2, Some(3));
    assert!(!updated.fits());
    let updated = record(1, &"n".repeat(1024 - 29 - 4 - 5 - 5), "d", &["m"], 2, Some(3));
    assert!(updated.fits());
    assert_eq!(updated.to_bytes().len(), 1024);
    let many: Vec<&str> = vec![""; 248];
    assert!(record(1, "", "", &many, 2, None).fits());
    assert_eq!(record(1, "", "", &many, 2, None).to_bytes().len(), 21 + 4 + 4 + 248 * 4);
    let many: Vec<&str> = vec![""; 249];
    assert!(!record(1, "", "", &many, 2, None).fits());
    let huge = "x".repeat(5000);
    assert!(!record(1, &huge, "d", &[], 2, None).fits());
    assert!(!record(1, "n", &huge, &[], 2, None).fits());
    assert!(!record(1, "n", "d", &[&huge], 2, None).fits());
}

#[test]
fn a_payload_fits_with_and_without_an_update_time() {
    let payload = |len: usize| FragrancePayload {
        name: "é".repeat(len),
        description: "d".to_string(),
        mood_enhancing_properties: vec!["calm".to_string()],
    };
    // 21 + (4 + 2 * len) + (4 + 1) + (4 + 4) bytes when new, 8 more when updated
    assert!(payload(493).fits_new());
    assert!(!payload(494).fits_new());
    assert!(payload(489).fits_updated());
    assert!(!payload(490).fits_updated());
    assert!(FragrancePayload::default().fits_new());
    assert!(FragrancePayload::default().fits_updated());
}

#[test]
fn copies_are_equal_to_what_they_copy() {
    let r = record(3, "Rose", "floral", &["calm", "romantic"], 10, Some(11));
    assert_eq!(r.clone(), r);
    let p = FragrancePayload {
        name: "Rose".to_string(),
        description: "floral".to_string(),
        mood_enhancing_properties: vec!["calm".to_string()],
    };
    assert_eq!(p.clone(), p);
    assert_eq!(Fragrance::default().clone(), Fragrance::default());
}

#[test]
fn the_default_record_and_payload_are_empty() {
    assert_eq!(
        Fragrance::default(),
        Fragrance {
            id: 0,
            name: String::new(),
            description: String::new(),
            mood_enhancing_properties: Vec::new(),
            created_at: 0,
            updated_at: None,
        }
    );
    assert_eq!(
        FragrancePayload::default(),
        FragrancePayload {
            name: String::new(),
            description: String::new(),
            mood_enhancing_properties: Vec::new(),
        }
    );
}

#[test]
fn what_decodes_is_the_stored_form_of_what_it_decodes_to() {
    let good = record(1, "ab", "b", &["c", "dé"], 2, Some(3)).to_bytes();
    let mut seed: u64 = 0x2545f4914f6cdd1d;
    let mut decoded = 0;
    for _ in 0..20000 {
        let mut bytes = good.clone();
        for _ in 0..2 {
            seed = seed.wrapping_mul(6364136223846793005).wrapping_add(1442695040888963407);
            let at = (seed >> 33) as usize % bytes.len();
            seed = seed.wrapping_mul(6364136223846793005).wrapping_add(1442695040888963407);
            bytes[at] = match (seed >> 33) % 4 {
                0 => 0,
                1 => 1,
                2 => 97,
                _ => (seed >> 40) as u8,
            };
        }
        if let Some(found) = Fragrance::from_bytes(&bytes) {
            decoded += 1;
            assert!(found.fits());
            assert_eq!(found.to_bytes(), bytes);
        }
    }
    assert!(decoded > 1000);
}
