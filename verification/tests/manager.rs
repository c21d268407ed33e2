use vevtor::indexer_api::infrastructure::db_manager::EnsureStep;
use vevtor::util::hashing::string_to_u64;
use vevtor::{FileModel, FileVectorDbManager, Payload, PayloadValue, VevtorService};

fn file(name: &str, collection: &str) -> FileModel {
    FileModel {
        name: name.to_string(),
        collection: collection.to_string(),
    }
}

fn name_payload(name: &str) -> Payload {
    let mut payload = Payload::new();
    payload.insert("name".to_string(), PayloadValue::Text(name.to_string()));
    payload
}

fn names(list: &[&str]) -> Vec<String> {
    list.iter().map(|name| name.to_string()).collect()
}

#[test]
fn labels_are_the_names_in_order() {
    let entries = vec![file("a", "x"), file("b", "y"), file("a", "x")];
    assert_eq!(
        FileVectorDbManager::embed_labels(&entries),
        vec!["a", "b", "a"]
    );
    assert!(FileVectorDbManager::embed_labels(&Vec::<FileModel>::new()).is_empty());
}

#[test]
fn insert_plan_has_one_write_per_collection() {
    let entries = vec![
        file("a", "files"),
        file("b", "docs"),
        file("c", "files"),
        file("d", "files"),
    ];
    let embeddings: Vec<Vec<f32>> = vec![vec![0.1], vec![0.2], vec![0.3], vec![0.4]];
    let plan = FileVectorDbManager::insert_many(entries, Ok(embeddings)).unwrap();
    assert_eq!(plan.len(), 2);
    assert_eq!(plan[0].0, "files");
    assert_eq!(plan[1].0, "docs");
    let files: Vec<(Vec<f32>, u64)> = plan[0].1.iter().map(|p| (p.0.clone(), p.2)).collect();
    assert_eq!(
        files,
        vec![
            (vec![0.1], string_to_u64("a")),
            (vec![0.3], string_to_u64("c")),
            (vec![0.4], string_to_u64("d")),
        ]
    );
    assert_eq!(plan[1].1.len(), 1);
    assert_eq!(plan[1].1[0].0, vec![0.2]);
    assert_eq!(plan[1].1[0].2, string_to_u64("b"));
    assert_eq!(
        plan[1].1[0].1.get("name"),
        Some(&PayloadValue::Text("b".to_string()))
    );
}

#[test]
fn hundreds_of_records_for_one_collection_make_one_write() {
    let entries: Vec<FileModel> = (0..300).map(|i| file(&format!("f{}", i), "files")).collect();
    let embeddings: Vec<u32> = (0..300).collect();
    let plan = FileVectorDbManager::insert_many(entries, Ok(embeddings)).unwrap();
    assert_eq!(plan.len(), 1);
    assert_eq!(plan[0].0, "files");
    assert_eq!(plan[0].1.len(), 300);
    for (i, point) in plan[0].1.iter().enumerate() {
        assert_eq!(point.0, i as u32);
        assert_eq!(point.2, string_to_u64(&format!("f{}", i)));
    }
}

#[test]
fn failed_embedding_writes_nothing() {
    let entries = vec![file("a", "files")];
    let plan = FileVectorDbManager::insert_many::<FileModel, Vec<f32>>(
        entries,
        Err("model unavailable".to_string()),
    );
    assert_eq!(
        plan.err(),
        Some("Error generating embeddings: model unavailable".to_string())
    );
}

#[test]
fn records_without_an_embedding_are_not_written() {
    let entries = vec![file("a", "files"), file("b", "docs"), file("c", "files")];
    let plan = FileVectorDbManager::insert_many(entries, Ok(vec![1u8, 2u8])).unwrap();
    assert_eq!(plan.len(), 2);
    assert_eq!(plan[0].1.len(), 1);
    assert_eq!(plan[1].1.len(), 1);
}

#[test]
fn empty_batch_plans_nothing() {
    let plan =
        FileVectorDbManager::insert_many(Vec::<FileModel>::new(), Ok(Vec::<u8>::new())).unwrap();
    assert!(plan.is_empty());
}

#[test]
fn entries_are_grouped_with_their_embeddings() {
    let groups = FileVectorDbManager::group_entries(vec![
        (file("a", "x"), 1u8),
        (file("b", "y"), 2u8),
        (file("c", "x"), 3u8),
    ]);
    assert_eq!(
        groups,
        vec![
            ("x".to_string(), vec![(file("a", "x"), 1u8), (file("c", "x"), 3u8)]),
            ("y".to_string(), vec![(file("b", "y"), 2u8)]),
        ]
    );
}

#[test]
fn delete_plan_has_one_request_per_collection() {
    let plan = FileVectorDbManager::delete_many(vec![
        ("files".to_string(), 10),
        ("docs".to_string(), 20),
        ("files".to_string(), 30),
    ]);
    assert_eq!(
        plan,
        vec![
            ("files".to_string(), vec![10, 30]),
            ("docs".to_string(), vec![20]),
        ]
    );
    assert_eq!(
        FileVectorDbManager::group_ids(vec![("a".to_string(), 1), ("a".to_string(), 1)]),
        vec![("a".to_string(), vec![1, 1])]
    );
}

#[test]
fn deleting_by_key_names_the_identity_written() {
    let written = file("report.pdf", "files").get_id();
    let plan = VevtorService::delete_by_str_id(vec![
        ("files".to_string(), "report.pdf".to_string()),
        ("docs".to_string(), "test".to_string()),
        ("files".to_string(), "name".to_string()),
    ]);
    assert_eq!(
        plan,
        vec![
            ("files".to_string(), vec![written, 17894916470659333962]),
            ("docs".to_string(), vec![3355539057510317530]),
        ]
    );
    assert_eq!(
        VevtorService::delete_by_id(vec![("files".to_string(), written)]),
        vec![("files".to_string(), vec![written])]
    );
}

#[test]
fn search_drops_what_cannot_be_rebuilt() {
    let mut malformed = Payload::new();
    malformed.insert("name".to_string(), PayloadValue::Integer(1));
    let hits = vec![
        (name_payload("a"), 0.9f32),
        (name_payload("b"), 0.8f32),
        (malformed, 0.7f32),
        (name_payload("c"), 0.6f32),
        (name_payload("d"), 0.5f32),
    ];
    let results = FileVectorDbManager::search::<FileModel, f32>(Ok(hits)).unwrap();
    assert_eq!(
        results,
        vec![
            (file("a", ""), 0.9f32),
            (file("b", ""), 0.8f32),
            (file("c", ""), 0.6f32),
            (file("d", ""), 0.5f32),
        ]
    );
}

#[test]
fn search_keeps_all_hits_that_can_be_rebuilt() {
    let hits: Vec<(Payload, u32)> = (0..5).map(|i| (name_payload(&format!("f{}", i)), 100 - i)).collect();
    let results = FileVectorDbManager::search::<FileModel, u32>(Ok(hits)).unwrap();
    assert_eq!(results.len(), 5);
    for pair in results.windows(2) {
        assert!(pair[0].1 >= pair[1].1);
    }
    let none = FileVectorDbManager::search::<FileModel, u32>(Ok(vec![(Payload::new(), 1)])).unwrap();
    assert!(none.is_empty());
    let empty = FileVectorDbManager::search::<FileModel, u32>(Ok(Vec::new())).unwrap();
    assert!(empty.is_empty());
}

#[test]
fn failed_search_is_reported() {
    let results = FileVectorDbManager::search::<FileModel, f32>(Err("timeout".to_string()));
    assert_eq!(results.err(), Some("Search error: timeout".to_string()));
}

#[test]
fn unknown_collection_is_refreshed_before_it_is_created() {
    let mut manager = FileVectorDbManager::new(384);
    assert_eq!(manager.ensure_collection_exists("files"), EnsureStep::Refresh);
    manager.refresh_known_collections(names(&["docs"]));
    assert_eq!(
        manager.ensure_after_refresh("files"),
        EnsureStep::Create { vector_dim: 384 }
    );
    assert_eq!(manager.ensure_after_refresh("docs"), EnsureStep::Ready);
}

#[test]
fn known_collection_needs_no_remote_call() {
    let mut manager = FileVectorDbManager::new(8);
    manager.refresh_known_collections(names(&["files", "docs"]));
    assert_eq!(manager.ensure_collection_exists("files"), EnsureStep::Ready);
    assert_eq!(manager.ensure_collection_exists("docs"), EnsureStep::Ready);
    assert_eq!(manager.ensure_collection_exists("Files"), EnsureStep::Refresh);
}

#[test]
fn collection_created_elsewhere_is_found_by_the_refresh() {
    let mut manager = FileVectorDbManager::new(8);
    assert_eq!(manager.ensure_collection_exists("files"), EnsureStep::Refresh);
    manager.refresh_known_collections(names(&["files"]));
    assert_eq!(manager.ensure_after_refresh("files"), EnsureStep::Ready);
    assert_eq!(manager.ensure_collection_exists("files"), EnsureStep::Ready);
}

#[test]
fn created_collection_is_not_known_until_the_next_refresh() {
    let mut manager = FileVectorDbManager::new(8);
    manager.refresh_known_collections(Vec::new());
    assert_eq!(
        manager.ensure_after_refresh("files"),
        EnsureStep::Create { vector_dim: 8 }
    );
    assert_eq!(manager.ensure_collection_exists("files"), EnsureStep::Refresh);
    manager.refresh_known_collections(names(&["files"]));
    assert_eq!(manager.ensure_collection_exists("files"), EnsureStep::Ready);
}

#[test]
fn refresh_replaces_what_was_known() {
    let mut manager = FileVectorDbManager::new(8);
    manager.refresh_known_collections(names(&["a", "b"]));
    manager.refresh_known_collections(names(&["b", "c"]));
    assert_eq!(manager.ensure_collection_exists("a"), EnsureStep::Refresh);
    assert_eq!(manager.ensure_collection_exists("b"), EnsureStep::Ready);
    assert_eq!(manager.ensure_collection_exists("c"), EnsureStep::Ready);
}

#[test]
fn failures_to_ensure_are_worded() {
    assert_eq!(
        FileVectorDbManager::ensure_failed("already exists"),
        "Error ensuring collection exists: already exists"
    );
    assert_eq!(
        VevtorService::ensure_failed("refused"),
        "Error when ensuring that collection exists: refused"
    );
    assert_eq!(
        FileVectorDbManager::delete_failed("files", "timeout"),
        "Error deleting ids from collection 'files': timeout"
    );
}

#[test]
fn service_makes_sure_of_a_collection_as_its_manager_does() {
    let mut service = VevtorService::new(128);
    assert_eq!(service.ensure_collection_exists("files"), EnsureStep::Refresh);
    service.refresh_known_collections(names(&["docs"]));
    assert_eq!(
        service.ensure_after_refresh("files"),
        EnsureStep::Create { vector_dim: 128 }
    );
    assert_eq!(service.ensure_collection_exists("docs"), EnsureStep::Ready);
    service.refresh_known_collections(names(&["docs", "files"]));
    assert_eq!(service.ensure_after_refresh("files"), EnsureStep::Ready);
}

#[test]
fn service_searches_as_its_manager_does() {
    let hits = vec![(name_payload("a"), 2u8), (Payload::new(), 1u8)];
    assert_eq!(
        VevtorService::search::<FileModel, u8>(Ok(hits)),
        Ok(vec![(file("a", ""), 2u8)])
    );
    assert_eq!(
        VevtorService::search::<FileModel, u8>(Err("gone".to_string())),
        Err("Search error: gone".to_string())
    );
}
