use vevtor::indexer_api::infrastructure::ensure_run::{EnsureRequest, EnsureRun};
use vevtor::{FileModel, FileVectorDbManager};

fn names(list: &[&str]) -> Vec<String> {
    list.iter().map(|name| name.to_string()).collect()
}

fn manager_knowing(list: &[&str]) -> FileVectorDbManager {
    let mut manager = FileVectorDbManager::new(4);
    manager.refresh_known_collections(names(list));
    manager
}

#[test]
fn run_over_known_collections_asks_nothing() {
    let manager = manager_knowing(&["files", "docs"]);
    let mut run = EnsureRun::new(names(&["files", "docs"]));
    assert_eq!(run.next(&manager), EnsureRequest::Done);
    assert_eq!(run.next(&manager), EnsureRequest::Done);
    assert_eq!(run.refreshed(&manager), None);
}

#[test]
fn run_over_nothing_is_done() {
    let manager = FileVectorDbManager::new(4);
    let mut run = EnsureRun::new(Vec::new());
    assert_eq!(run.next(&manager), EnsureRequest::Done);
}

#[test]
fn unknown_collection_is_created_after_the_refresh() {
    let mut manager = manager_knowing(&["docs"]);
    let mut run = EnsureRun::new(names(&["docs", "files", "mail"]));
    assert_eq!(run.next(&manager), EnsureRequest::Refresh);
    manager.refresh_known_collections(names(&["docs", "mail"]));
    assert_eq!(run.refreshed(&manager), Some(("files".to_string(), 4)));
    assert_eq!(run.next(&manager), EnsureRequest::Done);
}

#[test]
fn collection_found_by_the_refresh_is_not_created() {
    let mut manager = FileVectorDbManager::new(4);
    let mut run = EnsureRun::new(names(&["files"]));
    assert_eq!(run.next(&manager), EnsureRequest::Refresh);
    manager.refresh_known_collections(names(&["files"]));
    assert_eq!(run.refreshed(&manager), None);
    assert_eq!(run.next(&manager), EnsureRequest::Done);
}

#[test]
fn each_unknown_collection_is_created_once() {
    let mut manager = FileVectorDbManager::new(16);
    let mut run = EnsureRun::new(names(&["a", "b", "a", "c", "b", "a"]));
    let mut created: Vec<String> = Vec::new();
    let mut refreshes = 0;
    while run.next(&manager) == EnsureRequest::Refresh {
        refreshes += 1;
        manager.refresh_known_collections(Vec::new());
        if let Some((name, vector_dim)) = run.refreshed(&manager) {
            assert_eq!(vector_dim, 16);
            created.push(name);
        }
    }
    assert_eq!(created, names(&["a", "b", "c"]));
    assert_eq!(refreshes, 3);
}

#[test]
fn run_for_a_plan_names_each_collection_of_the_plan_once() {
    let entries: Vec<FileModel> = (0..200)
        .map(|i| FileModel {
            name: format!("f{}", i),
            collection: if i % 2 == 0 { "even" } else { "odd" }.to_string(),
        })
        .collect();
    let embeddings: Vec<u8> = vec![0; 200];
    let plan = FileVectorDbManager::insert_many(entries, Ok(embeddings)).unwrap();
    let mut manager = FileVectorDbManager::new(8);
    let mut run = EnsureRun::for_batches(&plan);
    let mut created: Vec<String> = Vec::new();
    while run.next(&manager) == EnsureRequest::Refresh {
        manager.refresh_known_collections(created.clone());
        if let Some((name, _)) = run.refreshed(&manager) {
            created.push(name);
        }
    }
    assert_eq!(created, names(&["even", "odd"]));
}
