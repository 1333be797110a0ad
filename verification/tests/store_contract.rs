use pipeline_store::blob::{BlockType, Position};
use pipeline_store::cache::CacheKind;
use pipeline_store::memory::MemoryStore;
use pipeline_store::project::{Project, StoreError};
use pipeline_store::runs::{Run, RunStore, RunType};
use pipeline_store::specifications::SpecificationLog;
use pipeline_store::store::Store;

fn s(text: &str) -> String {
    text.to_string()
}

fn at(block_idx: u64, input_idx: u64, map_idx: u64) -> Position {
    Position { block_idx, input_idx, map_idx }
}

fn listed_ids(listing: Result<(Vec<Run>, usize), StoreError>) -> Result<(Vec<String>, usize), StoreError> {
    listing.map(|(runs, total)| (runs.into_iter().map(|r| r.run_id).collect(), total))
}

fn run(project: Project, id: &str, status: &str) -> Run {
    Run::new(project, &s(id), RunType::Local, &s("{\"config\":true}"), &s(status))
}

#[test]
fn projects_get_fresh_ids() {
    let mut store = MemoryStore::new();
    let a = store.create_project().unwrap();
    let b = store.create_project().unwrap();
    assert_eq!(a.project_id(), 1);
    assert_eq!(b.project_id(), 2);
    assert_ne!(a, b);
}

#[test]
fn second_insert_of_a_run_id_is_a_conflict() {
    let mut store = MemoryStore::new();
    let p = store.create_project().unwrap();
    let q = store.create_project().unwrap();
    let first = run(p, "run-1", "running");
    assert_eq!(store.create_run_empty(&p, &first), Ok(()));
    assert_eq!(store.create_run_empty(&p, &run(p, "run-1", "other")), Err(StoreError::Conflict));
    assert_eq!(store.create_run_empty(&q, &run(q, "run-1", "other")), Err(StoreError::Conflict));
    let loaded = store.load_run(&p, &s("run-1"), &None).unwrap().unwrap();
    assert_eq!(loaded.0, first);
    assert_eq!(loaded.1, vec![]);
    assert_eq!(store.load_run(&q, &s("run-1"), &None), Ok(None));
}

#[test]
fn a_run_of_another_project_is_invalid_input() {
    let mut store = MemoryStore::new();
    let p = store.create_project().unwrap();
    let q = store.create_project().unwrap();
    assert_eq!(store.create_run_empty(&p, &run(q, "run-1", "running")), Err(StoreError::InvalidInput));
    assert_eq!(listed_ids(store.list_runs(&p, RunType::Local, None)), Ok((vec![], 0)));
    assert_eq!(listed_ids(store.list_runs(&q, RunType::Local, None)), Ok((vec![], 0)));
}

#[test]
fn executions_of_an_absent_run_are_refused() {
    let mut store = MemoryStore::new();
    let p = store.create_project().unwrap();
    assert_eq!(
        store.append_run_block(&p, &s("nope"), BlockType::Code, &s("main"), at(0, 0, 0), &s("h"), &s("x")),
        Err(StoreError::InvalidInput)
    );
    assert_eq!(store.execution_count(), 0);
}

#[test]
fn run_status_is_replaced() {
    let mut store = MemoryStore::new();
    let p = store.create_project().unwrap();
    store.create_run_empty(&p, &run(p, "run-1", "running")).unwrap();
    store.update_run_status(&p, &s("run-1"), &s("done")).unwrap();
    store.update_run_status(&p, &s("absent"), &s("done")).unwrap();
    let loaded = store.load_run(&p, &s("run-1"), &None).unwrap().unwrap();
    assert_eq!(loaded.0, run(p, "run-1", "done"));
    assert_eq!(listed_ids(store.list_runs(&p, RunType::Local, None)), Ok((vec![s("run-1")], 1)));
}

#[test]
fn equal_executions_are_stored_once() {
    let mut store = MemoryStore::new();
    let p = store.create_project().unwrap();
    store.create_run_empty(&p, &run(p, "run-1", "running")).unwrap();
    store.create_run_empty(&p, &run(p, "run-2", "running")).unwrap();
    store.append_run_block(&p, &s("run-1"), BlockType::Code, &s("main"), at(0, 0, 0), &s("h"), &s("out")).unwrap();
    store.append_run_block(&p, &s("run-1"), BlockType::Code, &s("main"), at(0, 1, 0), &s("h"), &s("out")).unwrap();
    store.append_run_block(&p, &s("run-2"), BlockType::Code, &s("main"), at(0, 0, 0), &s("h"), &s("out")).unwrap();
    assert_eq!(store.execution_count(), 1);
    let first = store.load_run(&p, &s("run-1"), &None).unwrap().unwrap();
    assert_eq!(first.1, vec![(at(0, 0, 0), s("out")), (at(0, 1, 0), s("out"))]);
    let second = store.load_run(&p, &s("run-2"), &None).unwrap().unwrap();
    assert_eq!(second.1, vec![(at(0, 0, 0), s("out"))]);
}

#[test]
fn deleting_a_run_keeps_what_others_share() {
    let mut store = MemoryStore::new();
    let p = store.create_project().unwrap();
    store.create_run_empty(&p, &run(p, "run-1", "running")).unwrap();
    store.create_run_empty(&p, &run(p, "run-2", "running")).unwrap();
    store.append_run_block(&p, &s("run-1"), BlockType::Code, &s("main"), at(0, 0, 0), &s("shared"), &s("S")).unwrap();
    store.append_run_block(&p, &s("run-1"), BlockType::Code, &s("main"), at(1, 0, 0), &s("own"), &s("O")).unwrap();
    store.append_run_block(&p, &s("run-2"), BlockType::Code, &s("main"), at(0, 0, 0), &s("shared"), &s("S")).unwrap();
    assert_eq!(store.execution_count(), 2);
    store.delete_run(&p, &s("run-1")).unwrap();
    assert_eq!(store.load_run(&p, &s("run-1"), &None), Ok(None));
    assert_eq!(store.execution_count(), 1);
    let second = store.load_run(&p, &s("run-2"), &None).unwrap().unwrap();
    assert_eq!(second.1, vec![(at(0, 0, 0), s("S"))]);
    store.delete_run(&p, &s("absent")).unwrap();
    assert_eq!(listed_ids(store.list_runs(&p, RunType::Local, None)), Ok((vec![s("run-2")], 1)));
}

#[test]
fn deleting_a_project_leaves_nothing_of_it() {
    let mut store = MemoryStore::new();
    let p = store.create_project().unwrap();
    let q = store.create_project().unwrap();
    store.register_specification(&p, &s("spec-hash"), &s("spec text"), 10).unwrap();
    store.register_specification(&q, &s("spec-hash"), &s("spec text"), 11).unwrap();
    store.create_run_empty(&p, &run(p, "run-p", "running")).unwrap();
    store.create_run_empty(&q, &run(q, "run-q", "running")).unwrap();
    store.append_run_block(&p, &s("run-p"), BlockType::Code, &s("main"), at(0, 0, 0), &s("shared"), &s("S")).unwrap();
    store.append_run_block(&p, &s("run-p"), BlockType::Code, &s("main"), at(1, 0, 0), &s("own"), &s("O")).unwrap();
    store.append_run_block(&q, &s("run-q"), BlockType::Code, &s("main"), at(0, 0, 0), &s("shared"), &s("S")).unwrap();
    store.cache_store(&p, CacheKind::Chat, &s("req"), &s("resp")).unwrap();
    store.cache_store(&q, CacheKind::Chat, &s("req"), &s("resp-q")).unwrap();

    assert_eq!(store.delete_project(&p), Ok(()));

    assert_eq!(store.latest_specification_hash(&p), Ok(None));
    assert_eq!(store.load_specification(&p, &s("spec-hash")), Ok(None));
    assert_eq!(listed_ids(store.list_runs(&p, RunType::Local, None)), Ok((vec![], 0)));
    assert_eq!(store.load_run(&p, &s("run-p"), &None), Ok(None));
    assert_eq!(store.cache_get(&p, CacheKind::Chat, &s("req")), Ok(vec![]));
    assert_eq!(store.execution_count(), 1);

    assert_eq!(store.latest_specification_hash(&q), Ok(Some(s("spec-hash"))));
    assert_eq!(store.load_specification(&q, &s("spec-hash")), Ok(Some((11, s("spec text")))));
    assert_eq!(listed_ids(store.list_runs(&q, RunType::Local, None)), Ok((vec![s("run-q")], 1)));
    let kept = store.load_run(&q, &s("run-q"), &None).unwrap().unwrap();
    assert_eq!(kept.1, vec![(at(0, 0, 0), s("S"))]);
    assert_eq!(store.cache_get(&q, CacheKind::Chat, &s("req")), Ok(vec![s("resp-q")]));
}

#[test]
fn cache_stores_through_the_store_are_all_kept() {
    let mut store = MemoryStore::new();
    let p = store.create_project().unwrap();
    store.cache_store(&p, CacheKind::Embedding, &s("req"), &s("one")).unwrap();
    store.cache_store(&p, CacheKind::Embedding, &s("req"), &s("two")).unwrap();
    assert_eq!(store.cache_get(&p, CacheKind::Embedding, &s("req")), Ok(vec![s("one"), s("two")]));
    assert_eq!(store.cache_get(&p, CacheKind::Text, &s("req")), Ok(vec![]));
}

#[test]
fn runs_are_listed_by_page() {
    let mut store = MemoryStore::new();
    let p = store.create_project().unwrap();
    let mut ids: Vec<String> = Vec::new();
    for i in 1..=15 {
        let id = format!("run-{}", i);
        store.create_run_empty(&p, &run(p, &id, "running")).unwrap();
        ids.push(id);
    }
    let (first, total_first) = listed_ids(store.list_runs(&p, RunType::Local, Some((10, 0)))).unwrap();
    let (second, total_second) = listed_ids(store.list_runs(&p, RunType::Local, Some((10, 10)))).unwrap();
    assert_eq!((total_first, total_second), (15, 15));
    assert_eq!(first, ids[0..10].to_vec());
    assert_eq!(second, ids[10..15].to_vec());
}

#[test]
fn specifications_are_an_append_only_history() {
    let p = Project::new_from_id(1);
    let mut log = SpecificationLog::new();
    assert_eq!(log.latest_hash(p), None);
    log.register(p, &s("h1"), &s("one"), 10);
    log.register(p, &s("h1"), &s("one"), 11);
    log.register(p, &s("h2"), &s("two"), 12);
    log.register(p, &s("h1"), &s("one"), 13);
    assert_eq!(log.rows.len(), 3);
    assert_eq!(log.latest_hash(p), Some(s("h1")));
    assert_eq!(log.load(p, &s("h1")), Some((13, s("one"))));
    assert_eq!(log.load(p, &s("h2")), Some((12, s("two"))));
    assert_eq!(log.load(p, &s("h3")), None);
    assert_eq!(log.load(Project::new_from_id(2), &s("h1")), None);
}

#[test]
fn run_store_finds_runs_by_id_and_project() {
    let p = Project::new_from_id(1);
    let q = Project::new_from_id(2);
    let mut runs = RunStore::new();
    assert_eq!(runs.create_run_empty(&run(p, "a", "running")), Ok(()));
    assert_eq!(runs.create_run_empty(&run(q, "b", "running")), Ok(()));
    assert_eq!(runs.find_run(&s("b")), Some(1));
    assert_eq!(runs.find_run_in(p, &s("b")), None);
    assert_eq!(runs.find_run_in(q, &s("b")), Some(1));
    runs.delete_runs(p, &None);
    assert_eq!(runs.find_run(&s("a")), None);
    assert_eq!(runs.find_run(&s("b")), Some(0));
}

#[test]
fn used_up_project_ids_are_a_backend_failure() {
    let mut store = MemoryStore::starting_at(i64::MAX - 1);
    assert_eq!(store.create_project(), Ok(Project::new_from_id(i64::MAX - 1)));
    assert_eq!(store.create_project(), Err(StoreError::Backend));
    assert_eq!(store.create_project(), Err(StoreError::Backend));
}

fn record_two_responses<S: Store>(store: &mut S, project: &Project) -> Vec<String> {
    store.cache_store(project, CacheKind::Http, &s("req"), &s("a")).unwrap();
    store.cache_store(project, CacheKind::Http, &s("req"), &s("b")).unwrap();
    store.cache_get(project, CacheKind::Http, &s("req")).unwrap()
}

#[test]
fn callers_need_only_the_interface() {
    let mut store = MemoryStore::new();
    let p = store.create_project().unwrap();
    assert_eq!(record_two_responses(&mut store, &p), vec![s("a"), s("b")]);
}

#[test]
fn runs_are_listed_by_type() {
    let mut store = MemoryStore::new();
    let p = store.create_project().unwrap();
    let local = Run::new(p, &s("l1"), RunType::Local, &s("{}"), &s("running"));
    let deploy = Run::new(p, &s("d1"), RunType::Deploy, &s("{}"), &s("running"));
    let second = Run::new(p, &s("l2"), RunType::Local, &s("{}"), &s("running"));
    store.create_run_empty(&p, &local).unwrap();
    store.create_run_empty(&p, &deploy).unwrap();
    store.create_run_empty(&p, &second).unwrap();
    assert_eq!(store.list_runs(&p, RunType::Local, None), Ok((vec![local.clone(), second.clone()], 2)));
    assert_eq!(store.list_runs(&p, RunType::Deploy, None), Ok((vec![deploy.clone()], 1)));
    assert_eq!(store.list_runs(&p, RunType::Execute, None), Ok((vec![], 0)));
    assert_eq!(store.list_runs(&p, RunType::Local, Some((1, 1))), Ok((vec![second.clone()], 2)));
    assert_eq!(store.latest_run_id(&p, RunType::Local), Ok(Some(s("l2"))));
    assert_eq!(store.latest_run_id(&p, RunType::Deploy), Ok(Some(s("d1"))));
    assert_eq!(store.latest_run_id(&p, RunType::Execute), Ok(None));
}

#[test]
fn runs_are_loaded_by_their_ids() {
    let mut store = MemoryStore::new();
    let p = store.create_project().unwrap();
    let q = store.create_project().unwrap();
    let a = run(p, "a", "running");
    let b = run(p, "b", "done");
    let c = run(q, "c", "done");
    store.create_run_empty(&p, &a).unwrap();
    store.create_run_empty(&p, &b).unwrap();
    store.create_run_empty(&q, &c).unwrap();
    assert_eq!(
        store.load_runs(&p, &vec![s("b"), s("absent"), s("c"), s("a"), s("b")]),
        Ok(vec![b.clone(), a.clone(), b.clone()])
    );
    assert_eq!(store.load_runs(&p, &vec![]), Ok(vec![]));
}

#[test]
fn a_load_chooses_the_blocks() {
    let mut store = MemoryStore::new();
    let p = store.create_project().unwrap();
    store.create_run_empty(&p, &run(p, "r", "running")).unwrap();
    store.append_run_block(&p, &s("r"), BlockType::Input, &s("IN"), at(0, 0, 0), &s("h0"), &s("zero")).unwrap();
    store.append_run_block(&p, &s("r"), BlockType::Code, &s("STEP"), at(1, 0, 0), &s("h1"), &s("one")).unwrap();
    store.append_run_block(&p, &s("r"), BlockType::Code, &s("STEP"), at(1, 1, 0), &s("h2"), &s("two")).unwrap();
    store.append_run_block(&p, &s("r"), BlockType::LLM, &s("STEP"), at(2, 0, 0), &s("h3"), &s("three")).unwrap();
    let all = store.load_run(&p, &s("r"), &None).unwrap().unwrap();
    assert_eq!(all.1.len(), 4);
    let none = store.load_run(&p, &s("r"), &Some(None)).unwrap().unwrap();
    assert_eq!(none.0, run(p, "r", "running"));
    assert_eq!(none.1, vec![]);
    let step = store.load_run(&p, &s("r"), &Some(Some((BlockType::Code, s("STEP"))))).unwrap().unwrap();
    assert_eq!(step.1, vec![(at(1, 0, 0), s("one")), (at(1, 1, 0), s("two"))]);
    let model = store.load_run(&p, &s("r"), &Some(Some((BlockType::LLM, s("STEP"))))).unwrap().unwrap();
    assert_eq!(model.1, vec![(at(2, 0, 0), s("three"))]);
    let absent = store.load_run(&p, &s("r"), &Some(Some((BlockType::Code, s("OTHER"))))).unwrap().unwrap();
    assert_eq!(absent.1, vec![]);
}
