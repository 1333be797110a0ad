use pipeline_store::blob::Position;
use pipeline_store::blob_store::BlobStore;
use pipeline_store::cache::{Cache, CacheKind};
use pipeline_store::page::{page_window, paginate};
use pipeline_store::project::Project;
use pipeline_store::table::{DatabaseRow, TableRows};
use pipeline_store::tags::TagSet;
use pipeline_store::versions::{DocumentVersion, VersionHistory};

fn s(text: &str) -> String {
    text.to_string()
}

fn row(id: &str, content: &str) -> DatabaseRow {
    DatabaseRow::new(&s(id), &s(content))
}

fn at(block_idx: u64, input_idx: u64, map_idx: u64) -> Position {
    Position { block_idx, input_idx, map_idx }
}

#[test]
fn fifteen_items_in_two_pages() {
    let items: Vec<String> = (1..=15).map(|i| format!("item-{}", i)).collect();
    let (first, total_first) = paginate(&items, Some((10, 0)));
    let (second, total_second) = paginate(&items, Some((10, 10)));
    assert_eq!(total_first, 15);
    assert_eq!(total_second, 15);
    assert_eq!(first, items[0..10].to_vec());
    assert_eq!(second, items[10..15].to_vec());
    for item in &first {
        assert!(!second.contains(item));
    }
}

#[test]
fn page_window_edges() {
    assert_eq!(page_window(15, None), (0, 15));
    assert_eq!(page_window(15, Some((10, 0))), (0, 10));
    assert_eq!(page_window(15, Some((10, 10))), (10, 15));
    assert_eq!(page_window(15, Some((0, 3))), (3, 3));
    assert_eq!(page_window(15, Some((4, 15))), (15, 15));
    assert_eq!(page_window(15, Some((4, 99))), (15, 15));
    assert_eq!(page_window(0, Some((4, 0))), (0, 0));
    assert_eq!(page_window(15, Some((usize::MAX, 2))), (2, 15));
    assert_eq!(page_window(15, Some((usize::MAX, usize::MAX))), (15, 15));
}

#[test]
fn paginate_without_window_returns_all() {
    let items = vec![s("a"), s("b"), s("c")];
    assert_eq!(paginate(&items, None), (items.clone(), 3));
    assert_eq!(paginate(&items, Some((2, 5))), (Vec::<String>::new(), 3));
}

#[test]
fn cache_keeps_both_stores_under_one_key() {
    let p = Project::new_from_id(7);
    let mut cache = Cache::new();
    cache.store(p, CacheKind::Text, &s("h"), &s("first"));
    cache.store(p, CacheKind::Text, &s("h"), &s("second"));
    assert_eq!(cache.get(p, CacheKind::Text, &s("h")), vec![s("first"), s("second")]);
}

#[test]
fn cache_never_merges_equal_responses() {
    let p = Project::new_from_id(7);
    let mut cache = Cache::new();
    cache.store(p, CacheKind::Http, &s("h"), &s("same"));
    cache.store(p, CacheKind::Http, &s("h"), &s("same"));
    assert_eq!(cache.get(p, CacheKind::Http, &s("h")), vec![s("same"), s("same")]);
}

#[test]
fn cache_keys_are_independent() {
    let p = Project::new_from_id(1);
    let q = Project::new_from_id(2);
    let mut cache = Cache::new();
    cache.store(p, CacheKind::Text, &s("h"), &s("text"));
    cache.store(p, CacheKind::Chat, &s("h"), &s("chat"));
    cache.store(p, CacheKind::Embedding, &s("h"), &s("vector"));
    cache.store(q, CacheKind::Text, &s("h"), &s("other project"));
    cache.store(p, CacheKind::Text, &s("g"), &s("other hash"));
    assert_eq!(cache.get(p, CacheKind::Text, &s("h")), vec![s("text")]);
    assert_eq!(cache.get(p, CacheKind::Chat, &s("h")), vec![s("chat")]);
    assert_eq!(cache.get(p, CacheKind::Embedding, &s("h")), vec![s("vector")]);
    assert_eq!(cache.get(p, CacheKind::Http, &s("h")), Vec::<String>::new());
    assert_eq!(cache.get(q, CacheKind::Text, &s("h")), vec![s("other project")]);
    cache.delete_project(p);
    assert_eq!(cache.get(p, CacheKind::Text, &s("h")), Vec::<String>::new());
    assert_eq!(cache.get(q, CacheKind::Text, &s("h")), vec![s("other project")]);
}

#[test]
fn truncate_replaces_the_whole_table() {
    let mut table = TableRows::new();
    table.batch_upsert_rows(&vec![row("a", "1"), row("b", "2"), row("c", "3")], false);
    let batch = vec![row("b", "20"), row("d", "40")];
    table.batch_upsert_rows(&batch, true);
    let (rows, total) = table.list_rows(None);
    assert_eq!(total, 2);
    assert_eq!(rows, batch);
    assert_eq!(table.load_row(&s("a")), None);
    assert_eq!(table.load_row(&s("c")), None);
    assert_eq!(table.load_row(&s("b")), Some(row("b", "20")));
}

#[test]
fn upsert_without_truncate_writes_by_row_id() {
    let mut table = TableRows::new();
    table.batch_upsert_rows(&vec![row("a", "1"), row("b", "2")], false);
    table.batch_upsert_rows(&vec![row("b", "20"), row("c", "30")], false);
    let (rows, total) = table.list_rows(None);
    assert_eq!(total, 3);
    assert_eq!(rows, vec![row("a", "1"), row("b", "20"), row("c", "30")]);
    assert_eq!(table.find_row(&s("b")), Some(1));
    assert_eq!(table.find_row(&s("z")), None);
}

#[test]
fn batch_with_a_repeated_row_id_keeps_the_last_content() {
    let mut table = TableRows::new();
    table.batch_upsert_rows(&vec![row("a", "1"), row("a", "2")], true);
    assert_eq!(table.list_rows(None), (vec![row("a", "2")], 1));
}

#[test]
fn rows_are_listed_by_page() {
    let mut table = TableRows::new();
    table.batch_upsert_rows(&vec![row("a", "1"), row("b", "2"), row("c", "3")], true);
    assert_eq!(table.list_rows(Some((2, 1))), (vec![row("b", "2"), row("c", "3")], 3));
    assert_eq!(table.list_rows(Some((1, 0))), (vec![row("a", "1")], 3));
}

#[test]
fn two_contents_give_two_versions() {
    let mut history = VersionHistory::new();
    assert!(history.upsert(&s("hash-a"), 100));
    assert!(history.upsert(&s("hash-b"), 200));
    let a = DocumentVersion { hash: s("hash-a"), created: 100 };
    let b = DocumentVersion { hash: s("hash-b"), created: 200 };
    assert_eq!(history.list(None, &None), (vec![a.clone(), b.clone()], 2));
    assert_eq!(history.latest(), Some(b));
    assert_eq!(history.list(None, &Some(s("hash-a"))), (vec![a], 1));
    assert_eq!(history.list(None, &Some(s("hash-z"))), (vec![], 0));
}

#[test]
fn same_content_adds_no_version() {
    let mut history = VersionHistory::new();
    assert!(history.upsert(&s("hash-a"), 100));
    assert!(!history.upsert(&s("hash-a"), 200));
    assert_eq!(history.list(None, &None), (vec![DocumentVersion { hash: s("hash-a"), created: 100 }], 1));
}

#[test]
fn latest_goes_by_creation_time() {
    let mut history = VersionHistory::new();
    assert_eq!(history.latest(), None);
    history.upsert(&s("hash-a"), 300);
    history.upsert(&s("hash-b"), 100);
    history.upsert(&s("hash-c"), 200);
    let (all, total) = history.list(None, &None);
    assert_eq!(total, 3);
    let times: Vec<u64> = all.iter().map(|v| v.created).collect();
    assert_eq!(times, vec![100, 200, 300]);
    assert_eq!(history.latest(), Some(DocumentVersion { hash: s("hash-a"), created: 300 }));
    assert_eq!(history.list(Some((1, 1)), &None).0, vec![DocumentVersion { hash: s("hash-c"), created: 200 }]);
}

#[test]
fn known_hash_names_the_youngest_version_with_it() {
    let mut history = VersionHistory::new();
    history.upsert(&s("hash-a"), 1);
    history.upsert(&s("hash-b"), 2);
    history.upsert(&s("hash-a"), 3);
    assert_eq!(
        history.list(None, &Some(s("hash-a"))),
        (vec![DocumentVersion { hash: s("hash-a"), created: 3 }], 1)
    );
}

#[test]
fn adding_a_tag_twice_keeps_it_once() {
    let mut tags = TagSet::new();
    tags.add_tag(&s("x"));
    tags.add_tag(&s("x"));
    assert_eq!(tags.to_vec(), vec![s("x")]);
    assert_eq!(tags.update(&vec![s("x"), s("x")], &vec![]), vec![s("x")]);
}

#[test]
fn removing_an_absent_tag_changes_nothing() {
    let mut tags = TagSet::new();
    tags.update(&vec![s("a"), s("b")], &vec![]);
    tags.remove_tag(&s("zzz"));
    assert_eq!(tags.to_vec(), vec![s("a"), s("b")]);
    assert_eq!(tags.update(&vec![], &vec![s("zzz")]), vec![s("a"), s("b")]);
}

#[test]
fn tags_update_adds_then_removes() {
    let mut tags = TagSet::new();
    assert_eq!(tags.update(&vec![s("a"), s("b"), s("c")], &vec![s("b")]), vec![s("a"), s("c")]);
    assert_eq!(tags.update(&vec![s("d")], &vec![s("d"), s("a")]), vec![s("c")]);
    assert_eq!(tags.find(&s("c")), Some(0));
    assert_eq!(tags.find(&s("a")), None);
}

#[test]
fn a_payload_stored_twice_has_one_row() {
    let p = Project::new_from_id(1);
    let mut store = BlobStore::new();
    store.put(p, &s("run-1"), &None, &None, at(0, 0, 0), &s("h1"), &s("{\"v\":1}"));
    store.put(p, &s("run-1"), &None, &None, at(0, 1, 0), &s("h1"), &s("{\"v\":1}"));
    assert_eq!(store.blob_count(), 1);
    assert_eq!(store.join_count(), 2);
    let loaded = store.load(p, &s("run-1"), &None);
    assert_eq!(loaded, vec![(at(0, 0, 0), s("{\"v\":1}")), (at(0, 1, 0), s("{\"v\":1}"))]);
    assert_eq!(loaded[0].1, loaded[1].1);
}

#[test]
fn an_equal_hash_is_taken_as_equal_content() {
    let p = Project::new_from_id(1);
    let mut store = BlobStore::new();
    store.put(p, &s("run-1"), &None, &None, at(0, 0, 0), &s("h1"), &s("first"));
    store.put(p, &s("run-2"), &None, &None, at(0, 0, 0), &s("h1"), &s("second"));
    assert_eq!(store.blob_count(), 1);
    assert_eq!(store.content(&s("h1")), Some(s("first")));
    assert_eq!(store.load(p, &s("run-2"), &None), vec![(at(0, 0, 0), s("first"))]);
    assert_eq!(store.content(&s("h2")), None);
}

#[test]
fn read_order_is_write_order() {
    let p = Project::new_from_id(1);
    let mut store = BlobStore::new();
    store.put(p, &s("d"), &None, &None, at(2, 0, 0), &s("h2"), &s("two"));
    store.put(p, &s("other"), &None, &None, at(0, 0, 0), &s("h9"), &s("nine"));
    store.put(p, &s("d"), &None, &None, at(0, 0, 0), &s("h0"), &s("zero"));
    store.put(p, &s("d"), &None, &None, at(1, 0, 0), &s("h2"), &s("two"));
    assert_eq!(
        store.load(p, &s("d"), &None),
        vec![(at(2, 0, 0), s("two")), (at(0, 0, 0), s("zero")), (at(1, 0, 0), s("two"))]
    );
    assert_eq!(store.load(Project::new_from_id(2), &s("d"), &None), vec![]);
}

#[test]
fn versions_of_an_owner_are_read_apart() {
    let p = Project::new_from_id(1);
    let mut store = BlobStore::new();
    store.put(p, &s("d"), &Some(s("v1")), &None, at(0, 0, 0), &s("h"), &s("x"));
    store.put(p, &s("d"), &Some(s("v2")), &None, at(0, 0, 0), &s("h"), &s("x"));
    store.put(p, &s("d"), &Some(s("v2")), &None, at(1, 0, 0), &s("g"), &s("y"));
    assert_eq!(store.blob_count(), 2);
    assert_eq!(store.join_count(), 3);
    assert_eq!(store.load(p, &s("d"), &Some(s("v1"))), vec![(at(0, 0, 0), s("x"))]);
    assert_eq!(store.load(p, &s("d"), &Some(s("v2"))), vec![(at(0, 0, 0), s("x")), (at(1, 0, 0), s("y"))]);
    assert_eq!(store.load(p, &s("d"), &None), vec![]);
}

#[test]
fn removal_keeps_payloads_that_others_share() {
    let p = Project::new_from_id(1);
    let q = Project::new_from_id(2);
    let mut store = BlobStore::new();
    store.put(p, &s("run-1"), &None, &None, at(0, 0, 0), &s("shared"), &s("S"));
    store.put(p, &s("run-1"), &None, &None, at(1, 0, 0), &s("own"), &s("O"));
    store.put(q, &s("run-2"), &None, &None, at(0, 0, 0), &s("shared"), &s("S"));
    store.remove(p, &Some(s("run-1")));
    assert_eq!(store.join_count(), 1);
    assert_eq!(store.blob_count(), 1);
    assert_eq!(store.content(&s("shared")), Some(s("S")));
    assert_eq!(store.content(&s("own")), None);
    assert_eq!(store.load(q, &s("run-2"), &None), vec![(at(0, 0, 0), s("S"))]);
    store.remove(q, &None);
    assert_eq!(store.join_count(), 0);
    assert_eq!(store.blob_count(), 0);
}
