use pixelbox::crawl::{classify_extension, expand_glob_pattern, is_supported_zip_entry, EntryKind};
use pixelbox::engine::{DrainOutcome, Engine, EngineError, QueryStep};
use pixelbox::paths::{path_extension, stringify_filepath};
use pixelbox::query::QueryError;
use pixelbox::record::Record;

fn sample_record(path: &str, filename: &str, visual: Option<Vec<u8>>) -> Record {
    Record::from_parts(
        filename.to_string(),
        path.to_string(),
        640,
        480,
        vec![1u8, 2, 3],
        16,
        16,
        vec![],
        None,
        visual,
    )
    .unwrap()
}

#[test]
fn test_drain_is_idempotent() {
    let mut engine = Engine::new();
    assert_eq!(engine.try_get_num_indexed_images(), None);
    let first = engine.drain_record(sample_record("/a.png", "a.png", None));
    assert_eq!(first, DrainOutcome::Stored);
    let second = engine.drain_record(sample_record("/a.png", "a.png", None));
    assert_eq!(second, DrainOutcome::AlreadyPresent);
    assert_eq!(engine.get_num_indexed_images(), 1);
    assert_eq!(engine.try_get_num_indexed_images(), Some(1));
}

#[test]
fn test_crawl_classification_five_of_seven() {
    let entries = vec![
        "/dir/one.png",
        "/dir/two.JPG",
        "/dir/three.gif",
        "/dir/four.webp",
        "/dir/five.bmp",
        "/dir/notes.txt",
        "/dir/data.csv",
    ];
    let mut engine = Engine::new();
    for (i, path) in entries.iter().enumerate() {
        let ext = path_extension(path).unwrap();
        if classify_extension(&ext) == EntryKind::ImageFile {
            let rec = sample_record(path, &format!("img{}", i), None);
            assert_eq!(engine.drain_record(rec), DrainOutcome::Stored);
        }
    }
    assert_eq!(engine.get_num_indexed_images(), 5);
}

#[test]
fn test_crawl_classification_kinds() {
    assert_eq!(classify_extension("png"), EntryKind::ImageFile);
    assert_eq!(classify_extension("JPEG"), EntryKind::ImageFile);
    assert_eq!(classify_extension("ZIP"), EntryKind::Archive);
    assert_eq!(classify_extension("zip"), EntryKind::Archive);
    assert_eq!(classify_extension("txt"), EntryKind::Unsupported);
    assert_eq!(classify_extension(""), EntryKind::Unsupported);
}

#[test]
fn test_zip_entry_names() {
    assert!(is_supported_zip_entry("inner/photo.png"));
    assert!(is_supported_zip_entry("shot.jpeg"));
    assert!(!is_supported_zip_entry("shot.PNG")); // suffix check is case-sensitive
    assert!(!is_supported_zip_entry("readme.md"));
}

#[test]
fn test_expand_glob_pattern() {
    assert_eq!(expand_glob_pattern("/photos", '/'), "/photos/**/*.*");
}

#[test]
fn test_stringify_filepath() {
    assert_eq!(stringify_filepath("/a/b/c.png"), "/a/b/c.png");
    assert_eq!(stringify_filepath("/a//b/./c.png"), "/a/b/c.png");
    assert_eq!(stringify_filepath("/a/b/../c.png"), "/a/c.png");
    assert_eq!(stringify_filepath("/"), "/");
    assert_eq!(stringify_filepath("/../a"), "/a");
}

#[test]
fn test_path_extension() {
    assert_eq!(path_extension("/dir/file.png"), Some("png".to_string()));
    assert_eq!(path_extension("file.tar.gz"), Some("gz".to_string()));
    assert_eq!(path_extension("/dir.d/noext"), None);
    assert_eq!(path_extension("/dir/.hidden"), None);
}

#[test]
fn test_similar_reference_memoized() {
    let mut engine = Engine::new();
    engine.drain_record(sample_record("/one.png", "one.png", Some(vec![255u8, 0])));
    engine.drain_record(sample_record("/two.png", "two.png", Some(vec![0u8, 255])));

    let mut recompute_count = 0;
    let query_text = "similar:/one.png".to_string();

    // First issue: the reference is not cached, so the engine asks for
    // it; the caller computes the record (count goes to one).
    match engine.query(&query_text).unwrap() {
        QueryStep::NeedsReference(path) => {
            assert_eq!(path, "/one.png");
            recompute_count += 1;
            let reference = sample_record(&path, "one.png", Some(vec![255u8, 0]));
            engine.query_with_reference(&query_text, Some(reference)).unwrap();
        },
        QueryStep::Completed => panic!("a cold cache must request the reference"),
    }
    let first_results = engine.get_query_results().clone().unwrap();
    assert_eq!(first_results[0].path, "/one.png");

    // Second issue of the same query: the cached reference is reused,
    // nothing is recomputed.
    match engine.query(&query_text).unwrap() {
        QueryStep::Completed => {},
        QueryStep::NeedsReference(_) => recompute_count += 1,
    }
    assert_eq!(recompute_count, 1);
    let second_results = engine.get_query_results().clone().unwrap();
    assert_eq!(second_results.len(), first_results.len());
    assert_eq!(second_results[0].path, "/one.png");
}

#[test]
fn test_query_text_flow() {
    let mut engine = Engine::new();
    engine.drain_record(sample_record("/pets/cat.png", "cat.png", Some(vec![1u8, 2])));
    engine.drain_record(sample_record("/pets/dog.png", "dog.png", Some(vec![1u8, 2])));

    // A filename filter.
    match engine.query(&"filename:cat".to_string()).unwrap() {
        QueryStep::Completed => {},
        _ => panic!("text queries never need a reference"),
    }
    let results = engine.get_query_results().clone().unwrap();
    assert_eq!(results.len(), 1);
    assert_eq!(results[0].filename, "cat.png");

    // Empty input preserves the previous results.
    engine.query(&"".to_string()).unwrap();
    assert_eq!(engine.get_query_results().clone().unwrap().len(), 1);

    // Malformed input errs and preserves the previous results.
    let err = engine.query(&"broken\\".to_string());
    assert_eq!(err, Err(EngineError::Syntax(QueryError::TrailingEscape)));
    assert_eq!(engine.get_query_results().clone().unwrap().len(), 1);

    engine.clear_query_results();
    assert!(engine.get_query_results().is_none());
}

#[test]
fn test_query_by_image_hash() {
    let mut engine = Engine::new();
    engine.drain_record(sample_record("/one.png", "one.png", Some(vec![255u8, 0])));
    engine.drain_record(sample_record("/two.png", "two.png", Some(vec![0u8, 255])));
    let probe = sample_record("/probe.png", "probe.png", Some(vec![255u8, 0]));
    engine.query_by_image_hash_from_image(&probe).unwrap();
    let results = engine.get_query_results().clone().unwrap();
    assert_eq!(results.len(), 2);
    assert_eq!(results[0].path, "/one.png");
    assert_eq!(results[0].distance_from_query.unwrap().num, 0);
    assert_eq!(results[1].path, "/two.png");
}

#[test]
fn test_indexing_lifecycle_and_progress() {
    let mut engine = Engine::new();
    engine.add_tracked_folder("/photos".to_string()).unwrap();
    assert!(!engine.is_indexing_active());

    let globs = engine.start_reindexing().unwrap();
    assert_eq!(globs, vec!["/photos".to_string()]);
    assert!(engine.is_indexing_active());
    // A second start while indexing is a no-op.
    assert!(engine.start_reindexing().is_none());

    engine.note_file_discovered();
    engine.note_file_discovered();
    let (done, total) = engine.get_indexing_progress();
    assert_eq!((done, total), (0, 2));

    engine.note_record_ready();
    engine.drain_record(sample_record("/photos/a.png", "a.png", None));
    let (done, total) = engine.get_indexing_progress();
    assert_eq!((done, total), (1, 3));

    engine.note_indexing_finished();
    assert!(!engine.is_indexing_active());
    assert_eq!(engine.get_last_indexed(), &vec!["a.png".to_string()]);
}

#[test]
fn test_last_indexed_trimmed_to_ten() {
    let mut engine = Engine::new();
    for i in 0..13 {
        let r = sample_record(&format!("/p/{}.png", i), &format!("{}.png", i), None);
        assert_eq!(engine.drain_record(r), DrainOutcome::Stored);
    }
    let last = engine.get_last_indexed().clone();
    assert_eq!(last.len(), 10);
    assert_eq!(last[0], "3.png");
    assert_eq!(last[9], "12.png");
}

#[test]
fn test_tracked_folders_roundtrip() {
    let mut engine = Engine::new();
    engine.add_tracked_folder("/a".to_string()).unwrap();
    engine.add_tracked_folder("/b".to_string()).unwrap();
    assert!(engine.add_tracked_folder("/a".to_string()).is_err());
    assert_eq!(engine.get_tracked_folders(), &vec!["/a".to_string(), "/b".to_string()]);
    engine.remove_tracked_folder(&"/a".to_string());
    assert_eq!(engine.get_tracked_folders(), &vec!["/b".to_string()]);
    // Removing an untracked folder is a no-op, not an error.
    engine.remove_tracked_folder(&"/c".to_string());
    assert_eq!(engine.get_tracked_folders(), &vec!["/b".to_string()]);
}
