use pipeline_store::blob::Position;
use pipeline_store::datasets::{DatasetPoint, DatasetStore};
use pipeline_store::document_store::DocumentStore;
use pipeline_store::memory::MemoryStore;
use pipeline_store::project::{Project, StoreError};
use pipeline_store::store::Store;
use pipeline_store::table::DatabaseRow;
use pipeline_store::table_store::TableStore;
use pipeline_store::tables::DatabaseTable;
use pipeline_store::versions::DocumentVersion;

fn s(text: &str) -> String {
    text.to_string()
}

fn strings(items: &[&str]) -> Vec<String> {
    items.iter().map(|t| t.to_string()).collect()
}

fn row(id: &str, content: &str) -> DatabaseRow {
    DatabaseRow::new(&s(id), &s(content))
}

fn point(hash: &str, json: &str) -> DatasetPoint {
    DatasetPoint { hash: s(hash), json: s(json) }
}

fn idx(i: u64) -> Position {
    Position { block_idx: i, input_idx: 0, map_idx: 0 }
}

fn table(project: Project, id: &str, name: &str, description: &str, schema: Option<String>) -> DatabaseTable {
    DatabaseTable {
        project,
        data_source_id: s("ds"),
        database_id: s("db"),
        table_id: s(id),
        name: s(name),
        description: s(description),
        schema,
    }
}

fn version(hash: &str, created: u64) -> DocumentVersion {
    DocumentVersion { hash: s(hash), created }
}

#[test]
fn document_content_a_then_b() {
    let mut store = MemoryStore::new();
    let p = store.create_project().unwrap();
    let none: Vec<String> = vec![];
    assert_eq!(store.upsert_data_source_document(&p, &s("ds"), &s("doc"), &s("hash-a"), 10, &none, &none, &s("ok")), Ok(true));
    assert_eq!(store.upsert_data_source_document(&p, &s("ds"), &s("doc"), &s("hash-b"), 20, &none, &none, &s("ok")), Ok(true));
    assert_eq!(
        store.list_data_source_document_versions(&p, &s("ds"), &s("doc"), None, &None),
        Ok((vec![version("hash-a", 10), version("hash-b", 20)], 2))
    );
    let latest = store.load_data_source_document(&p, &s("ds"), &s("doc"), &None).unwrap().unwrap();
    assert_eq!(latest.0, version("hash-b", 20));
    assert_eq!(
        store.list_data_source_document_versions(&p, &s("ds"), &s("doc"), None, &Some(s("hash-a"))),
        Ok((vec![version("hash-a", 10)], 1))
    );
    assert_eq!(
        store.list_data_source_document_versions(&p, &s("ds"), &s("doc"), Some((1, 1)), &None),
        Ok((vec![version("hash-b", 20)], 2))
    );
}

#[test]
fn document_same_content_changes_metadata_only() {
    let mut store = MemoryStore::new();
    let p = store.create_project().unwrap();
    let none: Vec<String> = vec![];
    store.upsert_data_source_document(&p, &s("ds"), &s("doc"), &s("hash-a"), 10, &strings(&["t1"]), &none, &s("ok")).unwrap();
    assert_eq!(
        store.upsert_data_source_document(&p, &s("ds"), &s("doc"), &s("hash-a"), 30, &strings(&["t2", "t2"]), &strings(&["parent"]), &s("ok")),
        Ok(false)
    );
    let loaded = store.load_data_source_document(&p, &s("ds"), &s("doc"), &None).unwrap().unwrap();
    assert_eq!(loaded, (version("hash-a", 10), strings(&["t2"]), strings(&["parent"]), s("ok")));
}

#[test]
fn document_tags_are_a_set() {
    let mut store = MemoryStore::new();
    let p = store.create_project().unwrap();
    let none: Vec<String> = vec![];
    store.upsert_data_source_document(&p, &s("ds"), &s("doc"), &s("hash-a"), 10, &none, &none, &s("ok")).unwrap();
    assert_eq!(store.update_data_source_document_tags(&p, &s("ds"), &s("doc"), &strings(&["x"]), &none), Ok(strings(&["x"])));
    assert_eq!(store.update_data_source_document_tags(&p, &s("ds"), &s("doc"), &strings(&["x"]), &none), Ok(strings(&["x"])));
    assert_eq!(store.update_data_source_document_tags(&p, &s("ds"), &s("doc"), &none, &strings(&["absent"])), Ok(strings(&["x"])));
    assert_eq!(store.update_data_source_document_tags(&p, &s("ds"), &s("doc"), &strings(&["y"]), &strings(&["x"])), Ok(strings(&["y"])));
    assert_eq!(
        store.list_data_source_document_versions(&p, &s("ds"), &s("doc"), None, &None),
        Ok((vec![version("hash-a", 10)], 1))
    );
}

#[test]
fn document_writes_to_an_absent_document_are_invalid() {
    let mut store = MemoryStore::new();
    let p = store.create_project().unwrap();
    let none: Vec<String> = vec![];
    assert_eq!(
        store.update_data_source_document_tags(&p, &s("ds"), &s("nope"), &strings(&["x"]), &none),
        Err(StoreError::InvalidInput)
    );
    assert_eq!(
        store.update_data_source_document_parents(&p, &s("ds"), &s("nope"), &strings(&["x"])),
        Err(StoreError::InvalidInput)
    );
    assert_eq!(store.load_data_source_document(&p, &s("ds"), &s("nope"), &None), Ok(None));
    assert_eq!(store.list_data_source_document_versions(&p, &s("ds"), &s("nope"), None, &None), Ok((vec![], 0)));
}

#[test]
fn document_parents_are_overwritten() {
    let mut store = MemoryStore::new();
    let p = store.create_project().unwrap();
    let none: Vec<String> = vec![];
    store.upsert_data_source_document(&p, &s("ds"), &s("doc"), &s("h"), 1, &none, &strings(&["a", "b"]), &s("ok")).unwrap();
    assert_eq!(store.update_data_source_document_parents(&p, &s("ds"), &s("doc"), &strings(&["c"])), Ok(()));
    let loaded = store.load_data_source_document(&p, &s("ds"), &s("doc"), &None).unwrap().unwrap();
    assert_eq!(loaded.2, strings(&["c"]));
}

#[test]
fn deleting_a_document_removes_its_versions() {
    let mut store = MemoryStore::new();
    let p = store.create_project().unwrap();
    let none: Vec<String> = vec![];
    store.upsert_data_source_document(&p, &s("ds"), &s("one"), &s("h1"), 1, &none, &none, &s("ok")).unwrap();
    store.upsert_data_source_document(&p, &s("ds"), &s("one"), &s("h2"), 2, &none, &none, &s("ok")).unwrap();
    store.upsert_data_source_document(&p, &s("ds"), &s("two"), &s("h3"), 3, &none, &none, &s("ok")).unwrap();
    assert_eq!(store.delete_data_source_document(&p, &s("ds"), &s("one")), Ok(()));
    assert_eq!(store.list_data_source_document_versions(&p, &s("ds"), &s("one"), None, &None), Ok((vec![], 0)));
    assert_eq!(
        store.list_data_source_document_versions(&p, &s("ds"), &s("two"), None, &None),
        Ok((vec![version("h3", 3)], 1))
    );
}

#[test]
fn deleting_a_data_source_removes_documents_and_tables() {
    let mut store = MemoryStore::new();
    let p = store.create_project().unwrap();
    let none: Vec<String> = vec![];
    store.upsert_data_source_document(&p, &s("ds"), &s("doc"), &s("h1"), 1, &none, &none, &s("ok")).unwrap();
    store.upsert_data_source_document(&p, &s("other"), &s("doc"), &s("h1"), 1, &none, &none, &s("ok")).unwrap();
    store.upsert_database_table(&p, &s("ds"), &s("db"), &s("t"), &s("name"), &s("about")).unwrap();
    store.batch_upsert_database_rows(&p, &s("ds"), &s("db"), &s("t"), &vec![row("r", "1")], false).unwrap();
    store.upsert_database_table(&p, &s("other"), &s("db"), &s("t"), &s("name"), &s("about")).unwrap();
    assert_eq!(store.delete_data_source(&p, &s("ds")), Ok(()));
    assert_eq!(store.load_data_source_document(&p, &s("ds"), &s("doc"), &None), Ok(None));
    assert_eq!(store.load_database_table(&p, &s("ds"), &s("db"), &s("t")), Ok(None));
    assert_eq!(store.load_database_row(&p, &s("ds"), &s("db"), &s("t"), &s("r")), Ok(None));
    assert!(store.load_data_source_document(&p, &s("other"), &s("doc"), &None).unwrap().is_some());
    assert!(store.load_database_table(&p, &s("other"), &s("db"), &s("t")).unwrap().is_some());
}

#[test]
fn table_upsert_is_idempotent() {
    let mut store = MemoryStore::new();
    let p = store.create_project().unwrap();
    assert!(store.upsert_database_table(&p, &s("ds"), &s("db"), &s("t"), &s("name"), &s("first")).is_ok());
    store.batch_upsert_database_rows(&p, &s("ds"), &s("db"), &s("t"), &vec![row("r", "1")], false).unwrap();
    assert!(store.upsert_database_table(&p, &s("ds"), &s("db"), &s("t"), &s("renamed"), &s("second")).is_ok());
    assert_eq!(
        store.load_database_table(&p, &s("ds"), &s("db"), &s("t")),
        Ok(Some(table(p, "t", "renamed", "second", None)))
    );
    assert_eq!(store.list_database_rows(&p, &s("ds"), &s("db"), &s("t"), None), Ok((vec![row("r", "1")], 1)));
}

#[test]
fn table_name_taken_is_a_conflict() {
    let mut store = MemoryStore::new();
    let p = store.create_project().unwrap();
    store.upsert_database_table(&p, &s("ds"), &s("db"), &s("t1"), &s("name"), &s("d")).unwrap();
    assert_eq!(
        store.upsert_database_table(&p, &s("ds"), &s("db"), &s("t2"), &s("name"), &s("d")),
        Err(StoreError::Conflict)
    );
    assert_eq!(store.load_database_table(&p, &s("ds"), &s("db"), &s("t2")), Ok(None));
    assert!(store.upsert_database_table(&p, &s("ds"), &s("db2"), &s("t2"), &s("name"), &s("d")).is_ok());
}

#[test]
fn table_schema_is_advisory() {
    let mut store = MemoryStore::new();
    let p = store.create_project().unwrap();
    assert_eq!(
        store.update_database_table_schema(&p, &s("ds"), &s("db"), &s("t"), &s("[]")),
        Err(StoreError::InvalidInput)
    );
    store.upsert_database_table(&p, &s("ds"), &s("db"), &s("t"), &s("name"), &s("d")).unwrap();
    assert_eq!(store.update_database_table_schema(&p, &s("ds"), &s("db"), &s("t"), &s("[{\"a\":\"int\"}]")), Ok(()));
    assert_eq!(
        store.batch_upsert_database_rows(&p, &s("ds"), &s("db"), &s("t"), &vec![row("r", "{\"a\":\"not an int\"}")], false),
        Ok(())
    );
    assert_eq!(
        store.load_database_table(&p, &s("ds"), &s("db"), &s("t")),
        Ok(Some(table(p, "t", "name", "d", Some(s("[{\"a\":\"int\"}]")))))
    );
    assert_eq!(
        store.load_database_row(&p, &s("ds"), &s("db"), &s("t"), &s("r")),
        Ok(Some(row("r", "{\"a\":\"not an int\"}")))
    );
}

#[test]
fn table_rows_truncate_through_the_store() {
    let mut store = MemoryStore::new();
    let p = store.create_project().unwrap();
    assert_eq!(
        store.batch_upsert_database_rows(&p, &s("ds"), &s("db"), &s("t"), &vec![row("a", "1")], true),
        Err(StoreError::InvalidInput)
    );
    store.upsert_database_table(&p, &s("ds"), &s("db"), &s("t"), &s("name"), &s("d")).unwrap();
    store.batch_upsert_database_rows(&p, &s("ds"), &s("db"), &s("t"), &vec![row("a", "1"), row("b", "2")], false).unwrap();
    let batch = vec![row("b", "20"), row("c", "30")];
    store.batch_upsert_database_rows(&p, &s("ds"), &s("db"), &s("t"), &batch, true).unwrap();
    assert_eq!(store.list_database_rows(&p, &s("ds"), &s("db"), &s("t"), None), Ok((batch, 2)));
    assert_eq!(store.load_database_row(&p, &s("ds"), &s("db"), &s("t"), &s("a")), Ok(None));
    assert_eq!(store.list_database_rows(&p, &s("ds"), &s("db"), &s("nope"), None), Ok((vec![], 0)));
}

#[test]
fn deleting_a_database_removes_tables_and_rows() {
    let mut store = MemoryStore::new();
    let p = store.create_project().unwrap();
    store.upsert_database_table(&p, &s("ds"), &s("db"), &s("t1"), &s("one"), &s("d")).unwrap();
    store.upsert_database_table(&p, &s("ds"), &s("db"), &s("t2"), &s("two"), &s("d")).unwrap();
    store.upsert_database_table(&p, &s("ds"), &s("keep"), &s("t1"), &s("one"), &s("d")).unwrap();
    store.batch_upsert_database_rows(&p, &s("ds"), &s("db"), &s("t1"), &vec![row("r", "1")], false).unwrap();
    assert_eq!(store.delete_database(&p, &s("ds"), &s("db")), Ok(()));
    assert_eq!(store.load_database_table(&p, &s("ds"), &s("db"), &s("t1")), Ok(None));
    assert_eq!(store.load_database_table(&p, &s("ds"), &s("db"), &s("t2")), Ok(None));
    assert_eq!(store.load_database_row(&p, &s("ds"), &s("db"), &s("t1"), &s("r")), Ok(None));
    assert!(store.load_database_table(&p, &s("ds"), &s("keep"), &s("t1")).unwrap().is_some());
}

#[test]
fn dataset_points_are_stored_once() {
    let mut store = MemoryStore::new();
    let p = store.create_project().unwrap();
    let v1 = vec![point("pa", "{\"x\":1}"), point("pb", "{\"x\":2}"), point("pa", "{\"x\":1}")];
    let v2 = vec![point("pb", "{\"x\":2}"), point("pc", "{\"x\":3}")];
    store.register_dataset(&p, &s("train"), &s("d1"), &v1, 10).unwrap();
    store.register_dataset(&p, &s("train"), &s("d2"), &v2, 20).unwrap();
    store.register_dataset(&p, &s("train"), &s("d1"), &v1, 30).unwrap();
    assert_eq!(store.point_count(), 3);
    assert_eq!(store.latest_dataset_hash(&p, &s("train")), Ok(Some(s("d2"))));
    assert_eq!(store.latest_dataset_hash(&p, &s("absent")), Ok(None));
    assert_eq!(
        store.load_dataset(&p, &s("train"), &s("d1")),
        Ok(Some(vec![(idx(0), s("{\"x\":1}")), (idx(1), s("{\"x\":2}")), (idx(2), s("{\"x\":1}"))]))
    );
    assert_eq!(
        store.load_dataset(&p, &s("train"), &s("d2")),
        Ok(Some(vec![(idx(0), s("{\"x\":2}")), (idx(1), s("{\"x\":3}"))]))
    );
    assert_eq!(store.load_dataset(&p, &s("train"), &s("d3")), Ok(None));
    assert_eq!(store.load_dataset(&p, &s("test"), &s("d1")), Ok(None));
}

#[test]
fn same_point_in_two_datasets_is_one_payload_and_two_joins() {
    let mut store = MemoryStore::new();
    let p = store.create_project().unwrap();
    let points = vec![point("hash-of-a", "{\"a\":1}")];
    assert_eq!(store.register_dataset(&p, &s("d1"), &s("content"), &points, 1), Ok(()));
    assert_eq!(store.register_dataset(&p, &s("d2"), &s("content"), &points, 2), Ok(()));
    assert_eq!(store.point_count(), 1);
    assert_eq!(store.point_join_count(), 2);
    assert_eq!(store.load_dataset(&p, &s("d1"), &s("content")), Ok(Some(vec![(idx(0), s("{\"a\":1}"))])));
    assert_eq!(store.load_dataset(&p, &s("d2"), &s("content")), Ok(Some(vec![(idx(0), s("{\"a\":1}"))])));
    assert_eq!(store.register_dataset(&p, &s("d2"), &s("content"), &points, 3), Ok(()));
    assert_eq!(store.point_join_count(), 2);
    assert_eq!(store.register_dataset(&p, &s("d3"), &s("other"), &points, 4), Ok(()));
    assert_eq!(store.point_count(), 1);
    assert_eq!(store.point_join_count(), 3);
}

#[test]
fn dataset_version_under_a_second_name_shares_its_points() {
    let p = Project::new_from_id(1);
    let mut datasets = DatasetStore::new();
    let points = vec![point("pa", "1"), point("pb", "2")];
    datasets.register_dataset(p, &s("train"), &s("d1"), &points, 10);
    datasets.register_dataset(p, &s("copy"), &s("d1"), &points, 11);
    assert_eq!(datasets.point_count(), 2);
    assert_eq!(datasets.join_count(), 4);
    assert_eq!(datasets.load_dataset(p, &s("train"), &s("d1")), Some(vec![(idx(0), s("1")), (idx(1), s("2"))]));
    assert_eq!(datasets.load_dataset(p, &s("copy"), &s("d1")), Some(vec![(idx(0), s("1")), (idx(1), s("2"))]));
    assert_eq!(datasets.latest_dataset_hash(p, &s("copy")), Some(s("d1")));
}

#[test]
fn deleting_a_project_takes_datasets_documents_and_tables() {
    let mut store = MemoryStore::new();
    let p = store.create_project().unwrap();
    let q = store.create_project().unwrap();
    let none: Vec<String> = vec![];
    store.register_dataset(&p, &s("train"), &s("d1"), &vec![point("shared", "S"), point("own", "O")], 1).unwrap();
    store.register_dataset(&q, &s("train"), &s("d9"), &vec![point("shared", "S")], 2).unwrap();
    store.upsert_data_source_document(&p, &s("ds"), &s("doc"), &s("h"), 1, &none, &none, &s("ok")).unwrap();
    store.upsert_data_source_document(&q, &s("ds"), &s("doc"), &s("h"), 1, &none, &none, &s("ok")).unwrap();
    store.upsert_database_table(&p, &s("ds"), &s("db"), &s("t"), &s("name"), &s("d")).unwrap();
    store.upsert_database_table(&q, &s("ds"), &s("db"), &s("t"), &s("name"), &s("d")).unwrap();
    assert_eq!(store.point_count(), 2);

    assert_eq!(store.delete_project(&p), Ok(()));

    assert_eq!(store.latest_dataset_hash(&p, &s("train")), Ok(None));
    assert_eq!(store.load_dataset(&p, &s("train"), &s("d1")), Ok(None));
    assert_eq!(store.load_data_source_document(&p, &s("ds"), &s("doc"), &None), Ok(None));
    assert_eq!(store.load_database_table(&p, &s("ds"), &s("db"), &s("t")), Ok(None));
    assert_eq!(store.point_count(), 1);
    assert_eq!(store.load_dataset(&q, &s("train"), &s("d9")), Ok(Some(vec![(idx(0), s("S"))])));
    assert!(store.load_data_source_document(&q, &s("ds"), &s("doc"), &None).unwrap().is_some());
    assert!(store.load_database_table(&q, &s("ds"), &s("db"), &s("t")).unwrap().is_some());
}

#[test]
fn document_store_finds_documents_by_key() {
    let p = Project::new_from_id(1);
    let mut docs = DocumentStore::new();
    let none: Vec<String> = vec![];
    assert!(docs.upsert_document(p, &s("ds"), &s("a"), &s("h"), 1, &none, &none, &s("ok")));
    assert!(docs.upsert_document(p, &s("ds"), &s("b"), &s("h"), 1, &none, &none, &s("ok")));
    assert_eq!(docs.find_document(p, &s("ds"), &s("b")), Some(1));
    assert_eq!(docs.find_document(p, &s("other"), &s("b")), None);
    docs.delete(p, &Some(s("ds")), &Some(s("a")));
    assert_eq!(docs.find_document(p, &s("ds"), &s("b")), Some(0));
}

#[test]
fn table_store_finds_tables_by_key() {
    let p = Project::new_from_id(1);
    let mut tables = TableStore::new();
    assert!(tables.upsert_table(p, &s("ds"), &s("db"), &s("t1"), &s("one"), &s("d")).is_ok());
    assert!(tables.upsert_table(p, &s("ds"), &s("db"), &s("t2"), &s("two"), &s("d")).is_ok());
    assert_eq!(tables.find_table(p, &s("ds"), &s("db"), &s("t2")), Some(1));
    assert_eq!(tables.find_table(p, &s("ds"), &s("db"), &s("t3")), None);
    assert_eq!(tables.upsert_table(p, &s("ds"), &s("db"), &s("t1"), &s("two"), &s("d")), Err(StoreError::Conflict));
}

#[test]
fn table_upsert_returns_the_table() {
    let mut store = MemoryStore::new();
    let p = store.create_project().unwrap();
    assert_eq!(
        store.upsert_database_table(&p, &s("ds"), &s("db"), &s("t"), &s("name"), &s("first")),
        Ok(table(p, "t", "name", "first", None))
    );
    store.update_database_table_schema(&p, &s("ds"), &s("db"), &s("t"), &s("[]")).unwrap();
    assert_eq!(
        store.upsert_database_table(&p, &s("ds"), &s("db"), &s("t"), &s("renamed"), &s("second")),
        Ok(table(p, "t", "renamed", "second", Some(s("[]"))))
    );
    store.upsert_database_table(&p, &s("ds"), &s("db"), &s("u"), &s("other"), &s("third")).unwrap();
    assert_eq!(
        store.list_databases_tables(&p, &s("ds"), &s("db"), None),
        Ok((vec![table(p, "t", "renamed", "second", Some(s("[]"))), table(p, "u", "other", "third", None)], 2))
    );
    assert_eq!(
        store.list_databases_tables(&p, &s("ds"), &s("db"), Some((5, 1))),
        Ok((vec![table(p, "u", "other", "third", None)], 2))
    );
}

#[test]
fn document_is_loaded_by_version_hash() {
    let mut store = MemoryStore::new();
    let p = store.create_project().unwrap();
    let none: Vec<String> = vec![];
    store.upsert_data_source_document(&p, &s("ds"), &s("doc"), &s("h1"), 1, &strings(&["t"]), &none, &s("pending")).unwrap();
    store.upsert_data_source_document(&p, &s("ds"), &s("doc"), &s("h2"), 2, &strings(&["t"]), &none, &s("done")).unwrap();
    store.upsert_data_source_document(&p, &s("ds"), &s("doc"), &s("h1"), 3, &strings(&["t"]), &none, &s("done")).unwrap();
    assert_eq!(
        store.load_data_source_document(&p, &s("ds"), &s("doc"), &None),
        Ok(Some((version("h1", 3), strings(&["t"]), vec![], s("done"))))
    );
    assert_eq!(
        store.load_data_source_document(&p, &s("ds"), &s("doc"), &Some(s("h2"))),
        Ok(Some((version("h2", 2), strings(&["t"]), vec![], s("done"))))
    );
    assert_eq!(
        store.load_data_source_document(&p, &s("ds"), &s("doc"), &Some(s("h1"))),
        Ok(Some((version("h1", 3), strings(&["t"]), vec![], s("done"))))
    );
    assert_eq!(store.load_data_source_document(&p, &s("ds"), &s("doc"), &Some(s("h9"))), Ok(None));
}

#[test]
fn document_status_changes_without_a_version() {
    let mut store = MemoryStore::new();
    let p = store.create_project().unwrap();
    let none: Vec<String> = vec![];
    assert_eq!(store.upsert_data_source_document(&p, &s("ds"), &s("doc"), &s("h"), 1, &none, &none, &s("pending")), Ok(true));
    assert_eq!(store.upsert_data_source_document(&p, &s("ds"), &s("doc"), &s("h"), 2, &none, &none, &s("done")), Ok(false));
    let loaded = store.load_data_source_document(&p, &s("ds"), &s("doc"), &None).unwrap().unwrap();
    assert_eq!(loaded.0, version("h", 1));
    assert_eq!(loaded.3, s("done"));
}

#[test]
fn documents_are_listed_with_their_latest_version() {
    let mut store = MemoryStore::new();
    let p = store.create_project().unwrap();
    let none: Vec<String> = vec![];
    store.upsert_data_source_document(&p, &s("ds"), &s("a"), &s("h1"), 1, &none, &none, &s("ok")).unwrap();
    store.upsert_data_source_document(&p, &s("ds"), &s("b"), &s("h2"), 2, &none, &none, &s("ok")).unwrap();
    store.upsert_data_source_document(&p, &s("ds"), &s("a"), &s("h3"), 3, &none, &none, &s("ok")).unwrap();
    store.upsert_data_source_document(&p, &s("other"), &s("c"), &s("h4"), 4, &none, &none, &s("ok")).unwrap();
    assert_eq!(
        store.list_data_source_documents(&p, &s("ds"), None),
        Ok((vec![(s("a"), version("h3", 3)), (s("b"), version("h2", 2))], 2))
    );
    assert_eq!(
        store.list_data_source_documents(&p, &s("ds"), Some((1, 1))),
        Ok((vec![(s("b"), version("h2", 2))], 2))
    );
    assert_eq!(store.list_data_source_documents(&p, &s("none"), None), Ok((vec![], 0)));
}
