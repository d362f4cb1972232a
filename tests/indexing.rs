use fisher::chunk_text;
use fisher::document::chunk_at;
use fisher::indexer::{pending_files, record_file, IndexError};
use fisher::manifest::{locate, ManifestEntry};
use fisher::query::{select_hits, DEFAULT_TOP_K};
use fisher::VectorStore;

fn names(v: &[&str]) -> Vec<String> {
    v.iter().map(|s| s.to_string()).collect()
}

fn index_run(
    entries: &mut Vec<ManifestEntry>,
    store: &mut VectorStore,
    files: &[String],
    texts: &dyn Fn(&str) -> String,
) -> usize {
    let mut embed_calls = 0;
    for f in pending_files(entries, &files.to_vec()) {
        let chunks = chunk_text(&texts(&f));
        if !chunks.is_empty() {
            embed_calls += 1;
        }
        let lens = vec![store.dim(); chunks.len()];
        record_file(entries, store, f, chunks.len(), &lens).unwrap();
    }
    embed_calls
}

fn corpus(name: &str) -> String {
    match name {
        "a.txt" => format!("{}\n{}\n", "a".repeat(800), "b".repeat(800)),
        "b.txt" => "c".repeat(500),
        "c.txt" => "short file".to_string(),
        _ => String::new(),
    }
}

fn total(entries: &[ManifestEntry]) -> usize {
    entries.iter().map(|e| e.chunk_count).sum()
}

#[test]
fn two_file_directory_indexes_three_chunks() {
    let mut entries = Vec::new();
    let mut store = VectorStore::new(8);
    let files = names(&["a.txt", "b.txt"]);
    index_run(&mut entries, &mut store, &files, &corpus);
    let got: Vec<(String, usize)> = entries.iter().map(|e| (e.path.clone(), e.chunk_count)).collect();
    assert_eq!(got, vec![("a.txt".to_string(), 2), ("b.txt".to_string(), 1)]);
    assert_eq!(store.len(), 3);
    assert_eq!(total(&entries), store.len());
    let (e, off) = locate(&entries, 0).unwrap();
    assert_eq!(chunk_at(&corpus(&entries[e].path), off), Some("a".repeat(800)));
    let (e, off) = locate(&entries, 2).unwrap();
    assert_eq!(chunk_at(&corpus(&entries[e].path), off), Some("c".repeat(500)));
    assert_eq!(locate(&entries, 3), None);
}

#[test]
fn rerun_over_same_files_embeds_nothing() {
    let mut entries = Vec::new();
    let mut store = VectorStore::new(8);
    let files = names(&["a.txt", "empty.txt", "b.txt"]);
    assert_eq!(index_run(&mut entries, &mut store, &files, &corpus), 2);
    let before = store.len();
    assert_eq!(index_run(&mut entries, &mut store, &files, &corpus), 0);
    assert_eq!(store.len(), before);
    assert_eq!(entries.len(), 2);
}

#[test]
fn new_file_appends_one_entry() {
    let mut entries = Vec::new();
    let mut store = VectorStore::new(8);
    index_run(&mut entries, &mut store, &names(&["a.txt", "b.txt"]), &corpus);
    let files = names(&["a.txt", "b.txt", "c.txt"]);
    assert_eq!(pending_files(&entries, &files), names(&["c.txt"]));
    index_run(&mut entries, &mut store, &files, &corpus);
    let got: Vec<(String, usize)> = entries.iter().map(|e| (e.path.clone(), e.chunk_count)).collect();
    assert_eq!(
        got,
        vec![("a.txt".to_string(), 2), ("b.txt".to_string(), 1), ("c.txt".to_string(), 1)]
    );
    assert_eq!(store.len(), 4);
    assert_eq!(locate(&entries, 2), Some((1, 0)));
    assert_eq!(locate(&entries, 3), Some((2, 0)));
}

#[test]
fn mismatched_vectors_are_refused() {
    let mut entries = Vec::new();
    let mut store = VectorStore::new(4);
    assert_eq!(
        record_file(&mut entries, &mut store, "a".to_string(), 2, &vec![4]),
        Err(IndexError::CountMismatch)
    );
    assert_eq!(
        record_file(&mut entries, &mut store, "a".to_string(), 2, &vec![4, 3]),
        Err(IndexError::DimensionMismatch)
    );
    assert!(entries.is_empty());
    assert_eq!(store.len(), 0);
    assert_eq!(record_file(&mut entries, &mut store, "a".to_string(), 2, &vec![4, 4]), Ok(()));
    assert_eq!(store.len(), 2);
    assert_eq!(entries.len(), 1);
}

#[test]
fn file_without_chunks_leaves_no_entry() {
    let mut entries = Vec::new();
    let mut store = VectorStore::new(4);
    assert_eq!(record_file(&mut entries, &mut store, "e".to_string(), 0, &vec![]), Ok(()));
    assert!(entries.is_empty());
    assert_eq!(store.len(), 0);
    assert_eq!(store.dim(), 4);
}

#[test]
fn hits_keep_search_order_and_bound() {
    let labels = vec![4, -1, 0, 9, 2, 1, 3];
    assert_eq!(select_hits(&labels, DEFAULT_TOP_K, 5), vec![4, 0, 2]);
    assert_eq!(select_hits(&labels, 2, 5), vec![4]);
    assert_eq!(select_hits(&labels, 0, 5), Vec::<usize>::new());
    assert_eq!(select_hits(&labels, 100, 10), vec![4, 0, 9, 2, 1, 3]);
    assert!(select_hits(&labels, 3, 0).is_empty());
}
