use pixelbox::distance::Distance;
use pixelbox::query::Predicate;
use pixelbox::record::{Record, RecordError};
use pixelbox::store::{Store, StoreError};

fn sample_record(path: &str, filename: &str, visual: Option<Vec<u8>>) -> Record {
    Record::from_parts(
        filename.to_string(),
        path.to_string(),
        640,
        480,
        vec![1u8, 2, 3],
        16,
        16,
        vec![("Model".to_string(), "TestCam".to_string())],
        None,
        visual,
    )
    .unwrap()
}

#[test]
fn test_insert_assigns_increasing_ids() {
    let mut store = Store::new();
    let a = store.insert(sample_record("/a.png", "a.png", None)).unwrap();
    let b = store.insert(sample_record("/b.png", "b.png", None)).unwrap();
    assert_eq!(a, 1);
    assert_eq!(b, 2);
    assert_eq!(store.len(), 2);
}

#[test]
fn test_insert_duplicate_path_is_conflict() {
    let mut store = Store::new();
    store.insert(sample_record("/a.png", "a.png", None)).unwrap();
    let second = store.insert(sample_record("/a.png", "a2.png", None));
    assert_eq!(second, Err(StoreError::Conflict));
    assert_eq!(store.len(), 1);
    assert!(store.exists_by_path(&"/a.png".to_string()));
    assert!(!store.exists_by_path(&"/b.png".to_string()));
}

#[test]
fn test_insert_rejects_mixed_hash_lengths() {
    let mut store = Store::new();
    store
        .insert(sample_record("/a.png", "a.png", Some(vec![1u8, 2])))
        .unwrap();
    let bad = store.insert(sample_record("/b.png", "b.png", Some(vec![1u8, 2, 3])));
    assert_eq!(bad, Err(StoreError::HashLengthMismatch));
    assert_eq!(store.len(), 1);
}

#[test]
fn test_record_validation() {
    let empty_path = Record::from_parts(
        "f".to_string(),
        "".to_string(),
        1,
        1,
        vec![1u8],
        1,
        1,
        vec![],
        None,
        None,
    );
    assert!(matches!(empty_path, Err(RecordError::EmptyPath)));
    let empty_thumb = Record::from_parts(
        "f".to_string(),
        "/f".to_string(),
        1,
        1,
        vec![],
        1,
        1,
        vec![],
        None,
        None,
    );
    assert!(matches!(empty_thumb, Err(RecordError::BadThumbnail)));
    let empty_hash = Record::from_parts(
        "f".to_string(),
        "/f".to_string(),
        1,
        1,
        vec![1u8],
        1,
        1,
        vec![],
        Some(vec![]),
        None,
    );
    assert!(matches!(empty_hash, Err(RecordError::BadHashLength)));
}

#[test]
fn test_tag_dedup_first_occurrence_wins() {
    let rec = Record::from_parts(
        "f".to_string(),
        "/f".to_string(),
        1,
        1,
        vec![1u8],
        1,
        1,
        vec![
            ("Model".to_string(), "One".to_string()),
            ("Make".to_string(), "Two".to_string()),
            ("Model".to_string(), "Three".to_string()),
        ],
        None,
        None,
    )
    .unwrap();
    assert_eq!(
        rec.tags,
        vec![
            ("Model".to_string(), "One".to_string()),
            ("Make".to_string(), "Two".to_string())
        ]
    );
}

#[test]
fn test_watched_directories() {
    let mut store = Store::new();
    store.add_watched_directory("/photos".to_string()).unwrap();
    store.add_watched_directory("/art".to_string()).unwrap();
    assert_eq!(
        store.add_watched_directory("/photos".to_string()),
        Err(StoreError::Conflict)
    );
    assert_eq!(
        store.list_watched_directories(),
        &vec!["/photos".to_string(), "/art".to_string()]
    );
    store.remove_watched_directory(&"/photos".to_string());
    assert_eq!(store.list_watched_directories(), &vec!["/art".to_string()]);
    // Removing a glob that is not registered changes nothing.
    store.remove_watched_directory(&"/nowhere".to_string());
    assert_eq!(store.list_watched_directories(), &vec!["/art".to_string()]);
}

#[test]
fn test_find_filters_and_ranks() {
    let mut store = Store::new();
    // Identical direction, opposite direction, and a hash-less record.
    store
        .insert(sample_record("/one.png", "one.png", Some(vec![255u8, 0])))
        .unwrap();
    store
        .insert(sample_record("/two.png", "two.png", Some(vec![0u8, 255])))
        .unwrap();
    store.insert(sample_record("/three.png", "three.png", None)).unwrap();

    let preds: Vec<Predicate> = Vec::new();
    let reference = vec![255u8, 0];
    let out = store.find_by_predicate(&preds, Some(&reference), 100).unwrap();
    // The hash-less record is never searchable.  The opposite-direction
    // record's distance is capped at 999999, which still sits under the
    // default one-million cutoff, so it comes back ranked last; the
    // parallel record leads with distance zero.
    assert_eq!(out.len(), 2);
    assert_eq!(out[0].path, "/one.png");
    assert_eq!(out[0].distance_from_query.unwrap().num, 0);
    assert_eq!(out[1].path, "/two.png");
    let far = out[1].distance_from_query.unwrap();
    assert_eq!(far.num / far.den, 999_999);
}

#[test]
fn test_max_distance_excludes_far_results() {
    let mut store = Store::new();
    store
        .insert(sample_record("/one.png", "one.png", Some(vec![255u8, 0])))
        .unwrap();
    store
        .insert(sample_record("/two.png", "two.png", Some(vec![0u8, 255])))
        .unwrap();
    // A generous cutoff admits both; a tiny one admits only the match.
    store.set_max_distance(Distance { num: 2_000_000, den: 1 });
    let preds: Vec<Predicate> = Vec::new();
    let reference = vec![255u8, 0];
    let out = store.find_by_predicate(&preds, Some(&reference), 100).unwrap();
    assert_eq!(out.len(), 2);
    assert_eq!(out[0].path, "/one.png");
    assert_eq!(out[1].path, "/two.png");
    // Distances are non-decreasing along the ranked order.
    let d0 = out[0].distance_from_query.unwrap();
    let d1 = out[1].distance_from_query.unwrap();
    assert!((d0.num as u128) * (d1.den as u128) <= (d1.num as u128) * (d0.den as u128));

    store.set_max_distance(Distance { num: 1, den: 2 });
    let out = store.find_by_predicate(&preds, Some(&reference), 100).unwrap();
    assert_eq!(out.len(), 1);
    assert_eq!(out[0].path, "/one.png");
}

#[test]
fn test_find_limit_keeps_best() {
    let mut store = Store::new();
    store
        .insert(sample_record("/one.png", "one.png", Some(vec![255u8, 0])))
        .unwrap();
    store
        .insert(sample_record("/two.png", "two.png", Some(vec![255u8, 10])))
        .unwrap();
    store
        .insert(sample_record("/three.png", "three.png", Some(vec![200u8, 90])))
        .unwrap();
    store.set_max_distance(Distance { num: 2_000_000, den: 1 });
    let preds: Vec<Predicate> = Vec::new();
    let reference = vec![255u8, 0];
    let out = store.find_by_predicate(&preds, Some(&reference), 2).unwrap();
    assert_eq!(out.len(), 2);
    assert_eq!(out[0].path, "/one.png");
    assert_eq!(out[1].path, "/two.png");
}

#[test]
fn test_find_by_text_predicates() {
    let mut store = Store::new();
    let mut cat = sample_record("/pets/cat.png", "cat.png", Some(vec![1u8, 2]));
    cat.tags = vec![("Model".to_string(), "FelineCam".to_string())];
    let dog = sample_record("/pets/dog.png", "dog.png", Some(vec![1u8, 2]));
    store.insert(cat).unwrap();
    store.insert(dog).unwrap();

    let preds = vec![Predicate::Filename("cat".to_string())];
    let out = store.find_by_predicate(&preds, None, 100).unwrap();
    assert_eq!(out.len(), 1);
    assert_eq!(out[0].filename, "cat.png");
    // Unranked scans attach no distance.
    assert!(out[0].distance_from_query.is_none());

    // Case-insensitive matching, as the persisted collation has it.
    let preds = vec![Predicate::Filename("CAT".to_string())];
    assert_eq!(store.find_by_predicate(&preds, None, 100).unwrap().len(), 1);

    // A bare token searches filename, path and tag values.
    let preds = vec![Predicate::Bare("pets".to_string())];
    assert_eq!(store.find_by_predicate(&preds, None, 100).unwrap().len(), 2);
    let preds = vec![Predicate::Bare("feline".to_string())];
    assert_eq!(store.find_by_predicate(&preds, None, 100).unwrap().len(), 1);

    // Tag predicates: name and value must match within one tag.
    let preds = vec![Predicate::TagBoth("Model".to_string(), "Feline".to_string())];
    assert_eq!(store.find_by_predicate(&preds, None, 100).unwrap().len(), 1);
    let preds = vec![Predicate::TagEither("nothere".to_string())];
    assert_eq!(store.find_by_predicate(&preds, None, 100).unwrap().len(), 0);

    // Conjunction across tokens.
    let preds = vec![
        Predicate::Bare("pets".to_string()),
        Predicate::Filename("dog".to_string()),
    ];
    let out = store.find_by_predicate(&preds, None, 100).unwrap();
    assert_eq!(out.len(), 1);
    assert_eq!(out[0].filename, "dog.png");
}

#[test]
fn test_find_rejects_mismatched_reference() {
    let mut store = Store::new();
    store
        .insert(sample_record("/one.png", "one.png", Some(vec![255u8, 0])))
        .unwrap();
    let preds: Vec<Predicate> = Vec::new();
    let reference = vec![1u8, 2, 3];
    assert!(matches!(
        store.find_by_predicate(&preds, Some(&reference), 100),
        Err(StoreError::HashLengthMismatch)
    ));
    let empty: Vec<u8> = Vec::new();
    assert!(matches!(
        store.find_by_predicate(&preds, Some(&empty), 100),
        Err(StoreError::HashLengthMismatch)
    ));
}
