use pipeline_store::datasets::{Dataset, DatasetPoint};
use pipeline_store::memory::MemoryStore;
use pipeline_store::project::{Project, StoreError};
use pipeline_store::registry::{DataSource, Database, Registry};
use pipeline_store::runs::{Run, RunType};
use pipeline_store::search::{admits, have_common, SearchFilter};
use pipeline_store::store::Store;

fn s(text: &str) -> String {
    text.to_string()
}

fn strings(items: &[&str]) -> Vec<String> {
    items.iter().map(|t| t.to_string()).collect()
}

fn source(project: Project, id: &str, config: &str) -> DataSource {
    DataSource { project, data_source_id: s(id), internal_id: format!("internal-{}", id), config: s(config) }
}

fn database(project: Project, ds: &str, id: &str, name: &str) -> Database {
    Database { project, data_source_id: s(ds), database_id: s(id), name: s(name) }
}

fn no_filter() -> SearchFilter {
    SearchFilter {
        tags_in: None,
        tags_not: None,
        parents_in: None,
        parents_not: None,
        created_after: None,
        created_before: None,
    }
}

#[test]
fn data_source_ids_are_unique_within_a_project() {
    let mut store = MemoryStore::new();
    let p = store.create_project().unwrap();
    let q = store.create_project().unwrap();
    assert_eq!(store.has_data_sources(&p), Ok(false));
    assert_eq!(store.register_data_source(&p, &source(p, "ds", "{}")), Ok(()));
    assert_eq!(store.register_data_source(&p, &source(p, "ds", "{\"other\":1}")), Err(StoreError::Conflict));
    assert_eq!(store.register_data_source(&q, &source(q, "ds", "{}")), Ok(()));
    assert_eq!(store.register_data_source(&p, &source(q, "new", "{}")), Err(StoreError::InvalidInput));
    assert_eq!(store.has_data_sources(&p), Ok(true));
    assert_eq!(store.load_data_source(&p, &s("ds")), Ok(Some(source(p, "ds", "{}"))));
    assert_eq!(store.load_data_source(&p, &s("absent")), Ok(None));
}

#[test]
fn data_source_config_is_replaced() {
    let mut store = MemoryStore::new();
    let p = store.create_project().unwrap();
    store.register_data_source(&p, &source(p, "ds", "{}")).unwrap();
    assert_eq!(store.update_data_source_config(&p, &s("ds"), &s("{\"k\":1}")), Ok(()));
    assert_eq!(store.update_data_source_config(&p, &s("absent"), &s("{}")), Err(StoreError::InvalidInput));
    assert_eq!(store.load_data_source(&p, &s("ds")), Ok(Some(source(p, "ds", "{\"k\":1}"))));
}

#[test]
fn database_ids_and_names_are_unique_within_a_data_source() {
    let mut store = MemoryStore::new();
    let p = store.create_project().unwrap();
    assert_eq!(store.register_database(&p, &s("ds"), &s("db1"), &s("one")), Ok(database(p, "ds", "db1", "one")));
    assert_eq!(store.register_database(&p, &s("ds"), &s("db1"), &s("other")), Err(StoreError::Conflict));
    assert_eq!(store.register_database(&p, &s("ds"), &s("db2"), &s("one")), Err(StoreError::Conflict));
    assert_eq!(store.register_database(&p, &s("ds"), &s("db2"), &s("two")), Ok(database(p, "ds", "db2", "two")));
    assert_eq!(store.register_database(&p, &s("ds2"), &s("db1"), &s("one")), Ok(database(p, "ds2", "db1", "one")));
    assert_eq!(store.load_database(&p, &s("ds"), &s("db2")), Ok(Some(database(p, "ds", "db2", "two"))));
    assert_eq!(store.load_database(&p, &s("ds"), &s("db3")), Ok(None));
    assert_eq!(
        store.list_databases(&p, &s("ds"), None),
        Ok(vec![database(p, "ds", "db1", "one"), database(p, "ds", "db2", "two")])
    );
    assert_eq!(store.list_databases(&p, &s("ds"), Some((1, 1))), Ok(vec![database(p, "ds", "db2", "two")]));
}

#[test]
fn deleting_a_database_or_a_data_source_unregisters_it() {
    let mut store = MemoryStore::new();
    let p = store.create_project().unwrap();
    store.register_data_source(&p, &source(p, "ds", "{}")).unwrap();
    store.register_database(&p, &s("ds"), &s("db1"), &s("one")).unwrap();
    store.register_database(&p, &s("ds"), &s("db2"), &s("two")).unwrap();
    store.delete_database(&p, &s("ds"), &s("db1")).unwrap();
    assert_eq!(store.load_database(&p, &s("ds"), &s("db1")), Ok(None));
    assert_eq!(store.load_data_source(&p, &s("ds")), Ok(Some(source(p, "ds", "{}"))));
    assert_eq!(store.register_database(&p, &s("ds"), &s("db3"), &s("one")), Ok(database(p, "ds", "db3", "one")));
    store.delete_data_source(&p, &s("ds")).unwrap();
    assert_eq!(store.load_data_source(&p, &s("ds")), Ok(None));
    assert_eq!(store.list_databases(&p, &s("ds"), None), Ok(vec![]));
    assert_eq!(store.has_data_sources(&p), Ok(false));
}

#[test]
fn deleting_a_project_unregisters_its_data_sources() {
    let mut store = MemoryStore::new();
    let p = store.create_project().unwrap();
    let q = store.create_project().unwrap();
    store.register_data_source(&p, &source(p, "ds", "{}")).unwrap();
    store.register_data_source(&q, &source(q, "ds", "{}")).unwrap();
    store.register_database(&p, &s("ds"), &s("db"), &s("one")).unwrap();
    store.register_database(&q, &s("ds"), &s("db"), &s("one")).unwrap();
    store.delete_project(&p).unwrap();
    assert_eq!(store.has_data_sources(&p), Ok(false));
    assert_eq!(store.load_database(&p, &s("ds"), &s("db")), Ok(None));
    assert_eq!(store.has_data_sources(&q), Ok(true));
    assert_eq!(store.load_database(&q, &s("ds"), &s("db")), Ok(Some(database(q, "ds", "db", "one"))));
}

#[test]
fn registry_deletes_by_scope() {
    let p = Project::new_from_id(1);
    let mut registry = Registry::new();
    registry.register_data_source(&source(p, "a", "{}")).unwrap();
    registry.register_data_source(&source(p, "b", "{}")).unwrap();
    registry.register_database(p, &s("a"), &s("db"), &s("one")).unwrap();
    registry.register_database(p, &s("b"), &s("db"), &s("one")).unwrap();
    registry.delete(p, &Some(s("a")), &None);
    assert_eq!(registry.load_data_source(p, &s("a")), None);
    assert_eq!(registry.load_database(p, &s("a"), &s("db")), None);
    assert!(registry.load_data_source(p, &s("b")).is_some());
    assert!(registry.load_database(p, &s("b"), &s("db")).is_some());
}

#[test]
fn documents_are_found_by_filter() {
    let mut store = MemoryStore::new();
    let p = store.create_project().unwrap();
    let none: Vec<String> = vec![];
    store.upsert_data_source_document(&p, &s("ds"), &s("d1"), &s("h1"), 10, &strings(&["red", "big"]), &strings(&["root"]), &s("ok")).unwrap();
    store.upsert_data_source_document(&p, &s("ds"), &s("d2"), &s("h2"), 20, &strings(&["blue"]), &strings(&["root", "d1"]), &s("ok")).unwrap();
    store.upsert_data_source_document(&p, &s("ds"), &s("d3"), &s("h3"), 30, &strings(&["red"]), &none, &s("ok")).unwrap();
    store.upsert_data_source_document(&p, &s("other"), &s("d4"), &s("h4"), 40, &strings(&["red"]), &none, &s("ok")).unwrap();

    assert_eq!(store.find_data_source_document_ids(&p, &s("ds"), &None, None), Ok((strings(&["d1", "d2", "d3"]), 3)));
    assert_eq!(store.find_data_source_document_ids(&p, &s("ds"), &None, Some((2, 1))), Ok((strings(&["d2", "d3"]), 3)));

    let mut red = no_filter();
    red.tags_in = Some(strings(&["red", "green"]));
    assert_eq!(store.find_data_source_document_ids(&p, &s("ds"), &Some(red.clone()), None), Ok((strings(&["d1", "d3"]), 2)));
    red.tags_not = Some(strings(&["big"]));
    assert_eq!(store.find_data_source_document_ids(&p, &s("ds"), &Some(red), None), Ok((strings(&["d3"]), 1)));

    let mut under_root = no_filter();
    under_root.parents_in = Some(strings(&["root"]));
    under_root.parents_not = Some(strings(&["d1"]));
    assert_eq!(store.find_data_source_document_ids(&p, &s("ds"), &Some(under_root), None), Ok((strings(&["d1"]), 1)));

    let mut window = no_filter();
    window.created_after = Some(10);
    window.created_before = Some(30);
    assert_eq!(store.find_data_source_document_ids(&p, &s("ds"), &Some(window), Some((10, 0))), Ok((strings(&["d2"]), 1)));
}

#[test]
fn filter_parts_are_checked_one_by_one() {
    assert!(have_common(&strings(&["a", "b"]), &strings(&["c", "b"])));
    assert!(!have_common(&strings(&["a", "b"]), &strings(&["c"])));
    assert!(!have_common(&strings(&[]), &strings(&["c"])));
    let mut f = no_filter();
    assert!(admits(&strings(&[]), &strings(&[]), None, &f));
    f.created_after = Some(5);
    assert!(!admits(&strings(&[]), &strings(&[]), None, &f));
    assert!(!admits(&strings(&[]), &strings(&[]), Some(5), &f));
    assert!(admits(&strings(&[]), &strings(&[]), Some(6), &f));
}

#[test]
fn latest_run_and_tables_and_datasets_are_listed() {
    let mut store = MemoryStore::new();
    let p = store.create_project().unwrap();
    assert_eq!(store.latest_run_id(&p, RunType::Local), Ok(None));
    store.create_run_empty(&p, &Run::new(p, &s("r1"), RunType::Local, &s("{}"), &s("running"))).unwrap();
    store.create_run_empty(&p, &Run::new(p, &s("r2"), RunType::Local, &s("{}"), &s("running"))).unwrap();
    assert_eq!(store.latest_run_id(&p, RunType::Local), Ok(Some(s("r2"))));

    store.upsert_database_table(&p, &s("ds"), &s("db"), &s("t1"), &s("one"), &s("d")).unwrap();
    store.upsert_database_table(&p, &s("ds"), &s("db"), &s("t2"), &s("two"), &s("d")).unwrap();
    store.upsert_database_table(&p, &s("ds"), &s("db2"), &s("t3"), &s("three"), &s("d")).unwrap();
    let (tables, total) = store.list_databases_tables(&p, &s("ds"), &s("db"), None).unwrap();
    let ids: Vec<String> = tables.into_iter().map(|t| t.table_id).collect();
    assert_eq!((ids, total), (strings(&["t1", "t2"]), 2));
    let (tables, total) = store.list_databases_tables(&p, &s("ds"), &s("db"), Some((1, 1))).unwrap();
    let ids: Vec<String> = tables.into_iter().map(|t| t.table_id).collect();
    assert_eq!((ids, total), (strings(&["t2"]), 2));

    let points = vec![DatasetPoint { hash: s("pa"), json: s("1") }];
    store.register_dataset(&p, &s("train"), &s("d1"), &points, 10).unwrap();
    store.register_dataset(&p, &s("test"), &s("d2"), &points, 20).unwrap();
    assert_eq!(
        store.list_datasets(&p),
        Ok(vec![
            Dataset { project: p, dataset_id: s("train"), hash: s("d1"), created: 10 },
            Dataset { project: p, dataset_id: s("test"), hash: s("d2"), created: 20 },
        ])
    );
}
