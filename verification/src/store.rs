//! The capability interface that the rest of the platform programs against,
//! stated over the rows that a backend holds. Every operation is one step:
//! it takes place as a whole or, on an error, leaves every row as it was.

use vstd::prelude::*;
use crate::blob::{
    all_referenced, distinct_hashes, kept_joins, lemma_removal_keeps_integrity, owned, resolved,
    swept, with_blob, Blob, BlockType, Join, Position,
};
use crate::cache::{lemma_no_entries_no_responses, responses_for, CacheEntry, CacheKind};
use crate::datasets::{
    datasets_after, datasets_of, datasets_without, has_dataset, joins_have_datasets, latest_dataset,
    lemma_dataset_deletion_leaves_no_dangling, point_joins_after, points_after, Dataset,
    DatasetPoint,
};
use crate::documents::{
    doc_index, doc_of, documents_sound, entries, has_doc, kept_docs, lemma_kept_docs,
    listed_docs, upserted_docs, with_doc_parents, with_doc_tags, DocumentView,
};
use crate::page::page_of;
use crate::project::{Project, StoreError};
use crate::registry::{
    database_index, databases_of, databases_sound, has_database, has_database_name, has_source,
    has_sources, kept_databases, kept_sources, lemma_kept_databases, lemma_kept_sources,
    source_index, sources_sound, with_config, DataSource, Database,
};
use crate::runs::{
    distinct_run_ids, has_run, has_run_in, joins_have_runs, kept_runs,
    block_choice, chosen_executions, lemma_deletion_leaves_no_dangling, lemma_kept_runs,
    lemma_no_runs_listed, run_index, runs_found, runs_of, with_status, Run, RunType,
};
use crate::specifications::{
    latest_spec, lemma_latest_spec, registered, spec_with_hash, Specification,
};
use crate::search::{found_ids, texts, SearchFilter};
use crate::table::{batch_result, has_row, DatabaseRow};
use crate::tables::{
    has_table, head_of, heads, heads_of, kept_tables, lemma_kept_tables, name_taken,
    table_index, table_of, tables_sound, upserted_table, with_rows, with_schema, DatabaseTable,
    TableView,
};
use crate::tags::updated_tags;
use crate::versions::{adds_version, chosen_version, listed, option_view, DocumentVersion};

verus! {

/// The rows that a backend holds, table by table.
pub struct Tables {
    /// The id that the next new project gets.
    pub next_project: int,
    /// The specifications of all projects, oldest first.
    pub specifications: Seq<Specification>,
    /// The dataset versions of all projects, oldest first.
    pub datasets: Seq<Dataset>,
    /// The join records from dataset versions to points, in write order.
    pub point_joins: Seq<Join>,
    /// The stored dataset points, one per hash.
    pub points: Seq<Blob>,
    /// The runs of all projects, oldest first.
    pub runs: Seq<Run>,
    /// The join records from runs to block executions, in write order.
    pub joins: Seq<Join>,
    /// The stored block executions, one per hash.
    pub executions: Seq<Blob>,
    /// The registered data sources.
    pub data_sources: Seq<DataSource>,
    /// The registered databases.
    pub databases: Seq<Database>,
    /// The documents of all data sources.
    pub documents: Seq<DocumentView>,
    /// The tables of all databases.
    pub tables: Seq<TableView>,
    /// The cached responses of all four caches, oldest first.
    pub cache: Seq<CacheEntry>,
}

/// No rows at all; the next new project gets the id `next_project`.
pub open spec fn empty_tables(next_project: int) -> Tables {
    Tables {
        next_project,
        specifications: Seq::empty(),
        datasets: Seq::empty(),
        point_joins: Seq::empty(),
        points: Seq::empty(),
        runs: Seq::empty(),
        joins: Seq::empty(),
        executions: Seq::empty(),
        data_sources: Seq::empty(),
        databases: Seq::empty(),
        documents: Seq::empty(),
        tables: Seq::empty(),
        cache: Seq::empty(),
    }
}

/// The invariants of the data model: run ids are unique; each payload is
/// stored once; no join record dangles and no payload is left without one;
/// data source ids within a project, database ids and names within a data
/// source, document keys, table keys, table names within a database and row ids
/// within a table are unique; every content history is ascending.
pub open spec fn sound(t: Tables) -> bool {
    &&& distinct_run_ids(t.runs)
    &&& distinct_hashes(t.executions)
    &&& resolved(t.joins, t.executions)
    &&& all_referenced(t.joins, t.executions)
    &&& joins_have_runs(t.joins, t.runs)
    &&& distinct_hashes(t.points)
    &&& resolved(t.point_joins, t.points)
    &&& all_referenced(t.point_joins, t.points)
    &&& joins_have_datasets(t.point_joins, t.datasets)
    &&& sources_sound(t.data_sources)
    &&& databases_sound(t.databases)
    &&& documents_sound(t.documents)
    &&& tables_sound(t.tables)
}

/// `b` is `a` without the project: none of its specifications, dataset
/// versions, runs, join records, data sources, databases, documents, tables
/// and cached responses is
/// left, each payload that no remaining join record refers to is gone, and
/// every other row stands as before.
pub open spec fn project_deleted(a: Tables, b: Tables, project: Project) -> bool {
    &&& b.next_project == a.next_project
    &&& b.specifications == a.specifications.filter(|s: Specification| s.project != project)
    &&& b.datasets == datasets_without(a.datasets, project)
    &&& b.point_joins == kept_joins(a.point_joins, project, None)
    &&& b.points == swept(a.points, b.point_joins)
    &&& b.runs == kept_runs(a.runs, project, None)
    &&& b.joins == kept_joins(a.joins, project, None)
    &&& b.executions == swept(a.executions, b.joins)
    &&& b.data_sources == kept_sources(a.data_sources, project, None)
    &&& b.databases == kept_databases(a.databases, project, None, None)
    &&& b.documents == kept_docs(a.documents, project, None, None)
    &&& b.tables == kept_tables(a.tables, project, None, None)
    &&& b.cache == a.cache.filter(|e: CacheEntry| e.project != project)
}

/// Deleting a project leaves a sound state in which nothing of the project
/// is left: no specification, dataset version, run, join record, data
/// source, database, document, table or cached response belongs to it,
/// every load within it comes back empty, and every remaining join record
/// still has its owner and its payload.
pub proof fn lemma_deleted_project_is_gone(a: Tables, b: Tables, project: Project)
    requires
        sound(a),
        project_deleted(a, b, project),
    ensures
        sound(b),
        forall|i: int|
            0 <= i < b.specifications.len() ==> (#[trigger] b.specifications[i]).project != project,
        forall|i: int| 0 <= i < b.datasets.len() ==> (#[trigger] b.datasets[i]).project != project,
        forall|i: int|
            0 <= i < b.point_joins.len() ==> (#[trigger] b.point_joins[i]).project != project,
        forall|i: int| 0 <= i < b.runs.len() ==> (#[trigger] b.runs[i]).project != project,
        forall|i: int| 0 <= i < b.joins.len() ==> (#[trigger] b.joins[i]).project != project,
        forall|i: int|
            0 <= i < b.data_sources.len() ==> (#[trigger] b.data_sources[i]).project != project,
        forall|i: int|
            0 <= i < b.databases.len() ==> (#[trigger] b.databases[i]).project != project,
        !has_sources(b.data_sources, project),
        forall|i: int|
            0 <= i < b.documents.len() ==> (#[trigger] b.documents[i]).project != project,
        forall|i: int| 0 <= i < b.tables.len() ==> (#[trigger] b.tables[i]).project != project,
        forall|i: int| 0 <= i < b.cache.len() ==> (#[trigger] b.cache[i]).project != project,
        forall|id: Seq<char>| !has_run_in(b.runs, project, id),
        forall|id: Seq<char>, hash: Seq<char>| !has_dataset(b.datasets, project, id, hash),
        forall|ds: Seq<char>, db: Seq<char>| !has_database(b.databases, project, ds, db),
        forall|ds: Seq<char>, id: Seq<char>| !has_doc(b.documents, project, ds, id),
        forall|ds: Seq<char>, db: Seq<char>, id: Seq<char>|
            !has_table(b.tables, project, ds, db, id),
        forall|run_type: RunType| #[trigger]
            runs_of(b.runs, project, run_type) == Seq::<Run>::empty(),
        latest_spec(b.specifications, project) is None,
        forall|kind: CacheKind, hash: Seq<char>| #[trigger]
            responses_for(b.cache, project, kind, hash) == Seq::<String>::empty(),
{
    broadcast use vstd::seq_lib::group_filter_ensures;

    lemma_kept_runs(a.runs, project, None);
    lemma_deletion_leaves_no_dangling(a.runs, a.joins, project, None);
    lemma_removal_keeps_integrity(a.joins, a.executions, project, None);
    lemma_dataset_deletion_leaves_no_dangling(a.datasets, a.point_joins, project);
    lemma_removal_keeps_integrity(a.point_joins, a.points, project, None);
    crate::blob::lemma_kept_joins(a.point_joins, project, None);
    lemma_kept_sources(a.data_sources, project, None);
    lemma_kept_databases(a.databases, project, None, None);
    lemma_kept_docs(a.documents, project, None, None);
    lemma_kept_tables(a.tables, project, None, None);
    assert forall|run_type: RunType| #[trigger]
        runs_of(b.runs, project, run_type) == Seq::<Run>::empty() by {
        lemma_no_runs_listed(b.runs, project, run_type);
    }
    assert forall|id: Seq<char>, hash: Seq<char>| !has_dataset(b.datasets, project, id, hash) by {
        if has_dataset(b.datasets, project, id, hash) {
            let i = choose|i: int|
                0 <= i < b.datasets.len() && (#[trigger] b.datasets[i]).project == project
                    && b.datasets[i].dataset_id@ == id && b.datasets[i].hash@ == hash;
            assert(b.datasets[i].project != project);
        }
    }
    assert forall|ds: Seq<char>, db: Seq<char>| !has_database(b.databases, project, ds, db) by {
        if has_database(b.databases, project, ds, db) {
            let i = database_index(b.databases, project, ds, db);
            assert(b.databases[i].project != project);
        }
    }
    assert forall|ds: Seq<char>, id: Seq<char>| !has_doc(b.documents, project, ds, id) by {
        if has_doc(b.documents, project, ds, id) {
            let i = doc_index(b.documents, project, ds, id);
            assert(b.documents[i].project != project);
        }
    }
    assert forall|ds: Seq<char>, db: Seq<char>, id: Seq<char>|
        !has_table(b.tables, project, ds, db, id) by {
        if has_table(b.tables, project, ds, db, id) {
            let i = table_index(b.tables, project, ds, db, id);
            assert(b.tables[i].project != project);
        }
    }
    lemma_latest_spec(b.specifications, project);
    assert forall|kind: CacheKind, hash: Seq<char>| #[trigger]
        responses_for(b.cache, project, kind, hash) == Seq::<String>::empty() by {
        lemma_no_entries_no_responses(b.cache, project, kind, hash);
    }
}

/// A backend of the platform's persistent state. Reads answer an absent
/// entity with `None` or an empty listing. A write that is refused, or that
/// the backend fails, leaves every row as it was.
pub trait Store {
    /// The rows that the backend holds.
    spec fn tables(&self) -> Tables;

    /// Creates a project under an id that no project had before.
    fn create_project(&mut self) -> (r: Result<Project, StoreError>)
        requires
            sound(old(self).tables()),
        ensures
            sound(final(self).tables()),
            r is Err ==> final(self).tables() == old(self).tables(),
            r is Ok ==> ({
                let a = old(self).tables();
                let b = final(self).tables();
                let v = r->Ok_0;
                &&& v.id == a.next_project
                &&& b == (Tables { next_project: a.next_project + 1, ..a })
            }),
            r is Err ==> r->Err_0 == StoreError::Backend,
    ;

    /// Deletes a project with everything that it owns.
    fn delete_project(&mut self, project: &Project) -> (r: Result<(), StoreError>)
        requires
            sound(old(self).tables()),
        ensures
            sound(final(self).tables()),
            r is Err ==> final(self).tables() == old(self).tables(),
            r is Ok ==> ({
                let a = old(self).tables();
                let b = final(self).tables();
                project_deleted(a, b, *project)
            }),
            r is Err ==> r->Err_0 == StoreError::Backend,
    ;

    /// The hash of the youngest version of the dataset.
    fn latest_dataset_hash(
        &self,
        project: &Project,
        dataset_id: &String,
    ) -> (r: Result<Option<String>, StoreError>)
        requires
            sound(self.tables()),
        ensures
            r is Ok ==> ({
                let t = self.tables();
                let v = r->Ok_0;
                &&& (v is Some <==> latest_dataset(t.datasets, *project, dataset_id@) is Some)
                &&& (
                    v is Some
                        ==> v->0 == t.datasets[
                            latest_dataset(t.datasets, *project, dataset_id@)->0
                        ].hash
                )
            }),
            r is Err ==> r->Err_0 == StoreError::Backend,
    ;

    /// Registers a version of a dataset at time `now`. A version that the
    /// project already has changes nothing. A new version always gets one join
    /// record per point, in order; a point is stored unless a payload with
    /// its hash is stored already, whichever dataset brought it.
    fn register_dataset(
        &mut self,
        project: &Project,
        dataset_id: &String,
        hash: &String,
        points: &Vec<DatasetPoint>,
        now: u64,
    ) -> (r: Result<(), StoreError>)
        requires
            sound(old(self).tables()),
        ensures
            sound(final(self).tables()),
            r is Err ==> final(self).tables() == old(self).tables(),
            r is Ok ==> ({
                let a = old(self).tables();
                let b = final(self).tables();
                b == (
                    Tables {
                        datasets: datasets_after(
                            a.datasets,
                            (
                                Dataset {
                                    project: *project,
                                    dataset_id: *dataset_id,
                                    hash: *hash,
                                    created: now,
                                }
                            ),
                        ),
                        points: points_after(
                            a.datasets,
                            a.points,
                            *project,
                            dataset_id@,
                            hash@,
                            points@,
                        ),
                        point_joins: point_joins_after(
                            a.datasets,
                            a.point_joins,
                            *project,
                            *dataset_id,
                            *hash,
                            points@,
                        ),
                        ..a
                    }
                )
            }),
            r is Err ==> r->Err_0 == StoreError::Backend,
    ;

    /// The points of a dataset version with their indices, in the order in
    /// which they were registered.
    fn load_dataset(
        &self,
        project: &Project,
        dataset_id: &String,
        hash: &String,
    ) -> (r: Result<Option<Vec<(Position, String)>>, StoreError>)
        requires
            sound(self.tables()),
        ensures
            r is Ok ==> ({
                let t = self.tables();
                let v = r->Ok_0;
                &&& (v is Some <==> has_dataset(t.datasets, *project, dataset_id@, hash@))
                &&& (
                    v is Some
                        ==> (v->0)@ == owned(
                            t.point_joins,
                            t.points,
                            *project,
                            dataset_id@,
                            Some(hash@),
                        )
                )
            }),
            r is Err ==> r->Err_0 == StoreError::Backend,
    ;

    /// The dataset versions of the project, in the order of their
    /// registration.
    fn list_datasets(&self, project: &Project) -> (r: Result<Vec<Dataset>, StoreError>)
        requires
            sound(self.tables()),
        ensures
            r is Ok ==> ({
                let t = self.tables();
                let v = r->Ok_0;
                v@ == datasets_of(t.datasets, *project)
            }),
            r is Err ==> r->Err_0 == StoreError::Backend,
    ;

    /// The hash of the project's youngest specification.
    fn latest_specification_hash(
        &self,
        project: &Project,
    ) -> (r: Result<Option<String>, StoreError>)
        requires
            sound(self.tables()),
        ensures
            r is Ok ==> ({
                let t = self.tables();
                let v = r->Ok_0;
                &&& (v is Some <==> latest_spec(t.specifications, *project) is Some)
                &&& (
                    v is Some
                        ==> v->0 == t.specifications[
                            latest_spec(t.specifications, *project)->0
                        ].hash
                )
            }),
            r is Err ==> r->Err_0 == StoreError::Backend,
    ;

    /// Registers a specification of the project at time `now`; nothing is
    /// added where the project's youngest specification has the hash.
    fn register_specification(
        &mut self,
        project: &Project,
        hash: &String,
        spec: &String,
        now: u64,
    ) -> (r: Result<(), StoreError>)
        requires
            sound(old(self).tables()),
        ensures
            sound(final(self).tables()),
            r is Err ==> final(self).tables() == old(self).tables(),
            r is Ok ==> ({
                let a = old(self).tables();
                let b = final(self).tables();
                b == (
                    Tables {
                        specifications: registered(
                            a.specifications,
                            (
                                Specification {
                                    project: *project,
                                    created: now,
                                    hash: *hash,
                                    text: *spec,
                                }
                            ),
                        ),
                        ..a
                    }
                )
            }),
            r is Err ==> r->Err_0 == StoreError::Backend,
    ;

    /// Creation time and text of the project's specification with the hash.
    fn load_specification(
        &self,
        project: &Project,
        hash: &String,
    ) -> (r: Result<Option<(u64, String)>, StoreError>)
        requires
            sound(self.tables()),
        ensures
            r is Ok ==> ({
                let t = self.tables();
                let v = r->Ok_0;
                &&& (v is Some <==> spec_with_hash(t.specifications, *project, hash@) is Some)
                &&& (
                    v is Some
                        ==> (v->0).0 == t.specifications[
                            spec_with_hash(t.specifications, *project, hash@)->0
                        ].created
                            && (v->0).1 == t.specifications[
                                spec_with_hash(t.specifications, *project, hash@)->0
                            ].text
                )
            }),
            r is Err ==> r->Err_0 == StoreError::Backend,
    ;

    /// The id of the project's youngest run of a type.
    fn latest_run_id(
        &self,
        project: &Project,
        run_type: RunType,
    ) -> (r: Result<Option<String>, StoreError>)
        requires
            sound(self.tables()),
        ensures
            r is Ok ==> ({
                let t = self.tables();
                let v = r->Ok_0;
                &&& (v is Some <==> runs_of(t.runs, *project, run_type).len() > 0)
                &&& (v is Some ==> v->0 == runs_of(t.runs, *project, run_type).last().run_id)
            }),
            r is Err ==> r->Err_0 == StoreError::Backend,
    ;

    /// One page of the project's runs of a type, oldest first, and the
    /// number of all of them.
    fn list_runs(
        &self,
        project: &Project,
        run_type: RunType,
        limit_offset: Option<(usize, usize)>,
    ) -> (r: Result<(Vec<Run>, usize), StoreError>)
        requires
            sound(self.tables()),
        ensures
            r is Ok ==> ({
                let t = self.tables();
                let v = r->Ok_0;
                &&& v.0@ == page_of(runs_of(t.runs, *project, run_type), limit_offset)
                &&& v.1 == runs_of(t.runs, *project, run_type).len()
            }),
            r is Err ==> r->Err_0 == StoreError::Backend,
    ;

    /// For each of the ids, in their order, the run with the id where the
    /// project has it.
    fn load_runs(
        &self,
        project: &Project,
        run_ids: &Vec<String>,
    ) -> (r: Result<Vec<Run>, StoreError>)
        requires
            sound(self.tables()),
        ensures
            r is Ok ==> ({
                let t = self.tables();
                let v = r->Ok_0;
                v@ == runs_found(t.runs, *project, run_ids@)
            }),
            r is Err ==> r->Err_0 == StoreError::Backend,
    ;

    /// Registers a run without executions. A run id that is taken, in any
    /// project, is a conflict; a run of another project is invalid.
    fn create_run_empty(&mut self, project: &Project, run: &Run) -> (r: Result<(), StoreError>)
        requires
            sound(old(self).tables()),
        ensures
            sound(final(self).tables()),
            r is Err ==> final(self).tables() == old(self).tables(),
            r is Ok ==> ({
                let a = old(self).tables();
                let b = final(self).tables();
                b == (Tables { runs: a.runs.push(*run), ..a })
            }),
            has_run(old(self).tables().runs, run.run_id@)
                ==> r == Err::<(), StoreError>(StoreError::Conflict),
            !has_run(old(self).tables().runs, run.run_id@) && run.project != *project
                ==> r == Err::<(), StoreError>(StoreError::InvalidInput),
            !has_run(old(self).tables().runs, run.run_id@) && run.project == *project && r is Err
                ==> r->Err_0 == StoreError::Backend,
    ;

    /// Replaces the status of a run of the project; an absent run changes
    /// nothing.
    fn update_run_status(
        &mut self,
        project: &Project,
        run_id: &String,
        run_status: &String,
    ) -> (r: Result<(), StoreError>)
        requires
            sound(old(self).tables()),
        ensures
            sound(final(self).tables()),
            r is Err ==> final(self).tables() == old(self).tables(),
            r is Ok ==> ({
                let a = old(self).tables();
                let b = final(self).tables();
                b == (Tables { runs: with_status(a.runs, *project, run_id@, *run_status), ..a })
            }),
            r is Err ==> r->Err_0 == StoreError::Backend,
    ;

    /// Stores one execution of the block with this type and name at
    /// `position` of a run, once per hash. A run that the project does not
    /// have is invalid.
    fn append_run_block(
        &mut self,
        project: &Project,
        run_id: &String,
        block_type: BlockType,
        block_name: &String,
        position: Position,
        hash: &String,
        execution: &String,
    ) -> (r: Result<(), StoreError>)
        requires
            sound(old(self).tables()),
        ensures
            sound(final(self).tables()),
            r is Err ==> final(self).tables() == old(self).tables(),
            r is Ok ==> ({
                let a = old(self).tables();
                let b = final(self).tables();
                b == (
                    Tables {
                        executions: with_blob(a.executions, *hash, *execution),
                        joins: a.joins.push(
                            (
                                Join {
                                    project: *project,
                                    owner: *run_id,
                                    version: None,
                                    block: Some((block_type, *block_name)),
                                    position,
                                    hash: *hash,
                                }
                            ),
                        ),
                        ..a
                    }
                )
            }),
            !has_run_in(old(self).tables().runs, *project, run_id@)
                ==> r == Err::<(), StoreError>(StoreError::InvalidInput),
            has_run_in(old(self).tables().runs, *project, run_id@) && r is Err
                ==> r->Err_0 == StoreError::Backend,
    ;

    /// The run with its executions in the order in which they were stored.
    /// `block` chooses the executions: all, none, or those of the block with
    /// the type and name.
    fn load_run(
        &self,
        project: &Project,
        run_id: &String,
        block: &Option<Option<(BlockType, String)>>,
    ) -> (r: Result<Option<(Run, Vec<(Position, String)>)>, StoreError>)
        requires
            sound(self.tables()),
        ensures
            r is Ok ==> ({
                let t = self.tables();
                let v = r->Ok_0;
                &&& (v is Some <==> has_run_in(t.runs, *project, run_id@))
                &&& (
                    v is Some
                        ==> (v->0).0 == t.runs[run_index(t.runs, run_id@)]
                            && (v->0).1@ == chosen_executions(
                                t.joins,
                                t.executions,
                                *project,
                                run_id@,
                                block_choice(*block),
                            )
                )
            }),
            r is Err ==> r->Err_0 == StoreError::Backend,
    ;

    /// Deletes one run with its join records and with each payload that no
    /// remaining join record refers to.
    fn delete_run(&mut self, project: &Project, run_id: &String) -> (r: Result<(), StoreError>)
        requires
            sound(old(self).tables()),
        ensures
            sound(final(self).tables()),
            r is Err ==> final(self).tables() == old(self).tables(),
            r is Ok ==> ({
                let a = old(self).tables();
                let b = final(self).tables();
                b == (
                    Tables {
                        runs: kept_runs(a.runs, *project, Some(run_id@)),
                        joins: kept_joins(a.joins, *project, Some(run_id@)),
                        executions: swept(
                            a.executions,
                            kept_joins(a.joins, *project, Some(run_id@)),
                        ),
                        ..a
                    }
                )
            }),
            r is Err ==> r->Err_0 == StoreError::Backend,
    ;

    /// Whether the project has any data source.
    fn has_data_sources(&self, project: &Project) -> (r: Result<bool, StoreError>)
        requires
            sound(self.tables()),
        ensures
            r is Ok ==> ({
                let t = self.tables();
                let v = r->Ok_0;
                v == has_sources(t.data_sources, *project)
            }),
            r is Err ==> r->Err_0 == StoreError::Backend,
    ;

    /// Registers a data source of the project. An id that the project
    /// already has is a conflict; a data source of another project is invalid.
    fn register_data_source(
        &mut self,
        project: &Project,
        ds: &DataSource,
    ) -> (r: Result<(), StoreError>)
        requires
            sound(old(self).tables()),
        ensures
            sound(final(self).tables()),
            r is Err ==> final(self).tables() == old(self).tables(),
            r is Ok ==> ({
                let a = old(self).tables();
                let b = final(self).tables();
                b == (Tables { data_sources: a.data_sources.push(*ds), ..a })
            }),
            has_source(old(self).tables().data_sources, ds.project, ds.data_source_id@)
                ==> r == Err::<(), StoreError>(StoreError::Conflict),
            !has_source(old(self).tables().data_sources, ds.project, ds.data_source_id@)
                && ds.project != *project
                ==> r == Err::<(), StoreError>(StoreError::InvalidInput),
            !has_source(old(self).tables().data_sources, ds.project, ds.data_source_id@)
                && ds.project == *project
                && r is Err
                ==> r->Err_0 == StoreError::Backend,
    ;

    /// The data source with the id.
    fn load_data_source(
        &self,
        project: &Project,
        data_source_id: &String,
    ) -> (r: Result<Option<DataSource>, StoreError>)
        requires
            sound(self.tables()),
        ensures
            r is Ok ==> ({
                let t = self.tables();
                let v = r->Ok_0;
                &&& (v is Some <==> has_source(t.data_sources, *project, data_source_id@))
                &&& (
                    v is Some
                        ==> v->0 == t.data_sources[
                            source_index(t.data_sources, *project, data_source_id@)
                        ]
                )
            }),
            r is Err ==> r->Err_0 == StoreError::Backend,
    ;

    /// Replaces the configuration of a data source. An absent data source
    /// is invalid.
    fn update_data_source_config(
        &mut self,
        project: &Project,
        data_source_id: &String,
        config: &String,
    ) -> (r: Result<(), StoreError>)
        requires
            sound(old(self).tables()),
        ensures
            sound(final(self).tables()),
            r is Err ==> final(self).tables() == old(self).tables(),
            r is Ok ==> ({
                let a = old(self).tables();
                let b = final(self).tables();
                b == (
                    Tables {
                        data_sources: with_config(
                            a.data_sources,
                            *project,
                            data_source_id@,
                            *config,
                        ),
                        ..a
                    }
                )
            }),
            !has_source(old(self).tables().data_sources, *project, data_source_id@)
                ==> r == Err::<(), StoreError>(StoreError::InvalidInput),
            has_source(old(self).tables().data_sources, *project, data_source_id@) && r is Err
                ==> r->Err_0 == StoreError::Backend,
    ;

    /// A version of a document with the document's tags, parents and
    /// status: the latest version where `version_hash` is `None`, else the
    /// youngest version with that hash.
    fn load_data_source_document(
        &self,
        project: &Project,
        data_source_id: &String,
        document_id: &String,
        version_hash: &Option<String>,
    ) -> (r: Result<Option<(DocumentVersion, Vec<String>, Vec<String>, String)>, StoreError>)
        requires
            sound(self.tables()),
        ensures
            r is Ok ==> ({
                let t = self.tables();
                let v = r->Ok_0;
                &&& (v is Some ==> has_doc(t.documents, *project, data_source_id@, document_id@))
                &&& (
                    has_doc(t.documents, *project, data_source_id@, document_id@)
                        ==> (
                            v is Some
                                <==> chosen_version(
                                    doc_of(
                                        t.documents,
                                        *project,
                                        data_source_id@,
                                        document_id@,
                                    ).versions,
                                    option_view(*version_hash),
                                ) is Some
                        )
                )
                &&& (
                    v is Some
                        ==> Some((v->0).0) == chosen_version(
                            doc_of(t.documents, *project, data_source_id@, document_id@).versions,
                            option_view(*version_hash),
                        )
                )
                &&& (
                    v is Some
                        ==> (v->0).1@ == doc_of(
                            t.documents,
                            *project,
                            data_source_id@,
                            document_id@,
                        ).tags
                )
                &&& (
                    v is Some
                        ==> (v->0).2@ == doc_of(
                            t.documents,
                            *project,
                            data_source_id@,
                            document_id@,
                        ).parents
                )
                &&& (
                    v is Some
                        ==> (v->0).3@ == doc_of(
                            t.documents,
                            *project,
                            data_source_id@,
                            document_id@,
                        ).status
                )
            }),
            r is Err ==> r->Err_0 == StoreError::Backend,
    ;

    /// One page of the documents of a data source, each by its id and its
    /// latest version, in the order of their creation, and the number of all
    /// of them.
    fn list_data_source_documents(
        &self,
        project: &Project,
        data_source_id: &String,
        limit_offset: Option<(usize, usize)>,
    ) -> (r: Result<(Vec<(String, DocumentVersion)>, usize), StoreError>)
        requires
            sound(self.tables()),
        ensures
            r is Ok ==> ({
                let t = self.tables();
                let v = r->Ok_0;
                &&& entries(v.0@) == page_of(
                    listed_docs(t.documents, *project, data_source_id@),
                    limit_offset,
                )
                &&& v.1 == listed_docs(t.documents, *project, data_source_id@).len()
            }),
            r is Err ==> r->Err_0 == StoreError::Backend,
    ;

    /// Writes a document: its content at time `now`, its tags, its parents
    /// and its status. Content whose hash the latest version has adds no
    /// version. Returns whether a version was added.
    fn upsert_data_source_document(
        &mut self,
        project: &Project,
        data_source_id: &String,
        document_id: &String,
        hash: &String,
        now: u64,
        tags: &Vec<String>,
        parents: &Vec<String>,
        status: &String,
    ) -> (r: Result<bool, StoreError>)
        requires
            sound(old(self).tables()),
        ensures
            sound(final(self).tables()),
            r is Err ==> final(self).tables() == old(self).tables(),
            r is Ok ==> ({
                let a = old(self).tables();
                let b = final(self).tables();
                let v = r->Ok_0;
                &&& b == (
                    Tables {
                        documents: upserted_docs(
                            a.documents,
                            *project,
                            data_source_id@,
                            document_id@,
                            *hash,
                            now,
                            tags@,
                            parents@,
                            status@,
                        ),
                        ..a
                    }
                )
                &&& v == (
                    if has_doc(
                        a.documents,
                        *project,
                        data_source_id@,
                        document_id@,
                    ) { adds_version(
                        doc_of(a.documents, *project, data_source_id@, document_id@).versions,
                        hash@,
                    ) } else { true }
                )
            }),
            r is Err ==> r->Err_0 == StoreError::Backend,
    ;

    /// Adds and removes tags of a document and returns the resulting set;
    /// no version is added. An absent document is invalid.
    fn update_data_source_document_tags(
        &mut self,
        project: &Project,
        data_source_id: &String,
        document_id: &String,
        add_tags: &Vec<String>,
        remove_tags: &Vec<String>,
    ) -> (r: Result<Vec<String>, StoreError>)
        requires
            sound(old(self).tables()),
        ensures
            sound(final(self).tables()),
            r is Err ==> final(self).tables() == old(self).tables(),
            r is Ok ==> ({
                let a = old(self).tables();
                let b = final(self).tables();
                let v = r->Ok_0;
                &&& v@ == updated_tags(
                    doc_of(a.documents, *project, data_source_id@, document_id@).tags,
                    add_tags@,
                    remove_tags@,
                )
                &&& b == (
                    Tables {
                        documents: with_doc_tags(
                            a.documents,
                            *project,
                            data_source_id@,
                            document_id@,
                            v@,
                        ),
                        ..a
                    }
                )
            }),
            !has_doc(old(self).tables().documents, *project, data_source_id@, document_id@)
                ==> r == Err::<Vec<String>, StoreError>(StoreError::InvalidInput),
            has_doc(old(self).tables().documents, *project, data_source_id@, document_id@)
                && r is Err
                ==> r->Err_0 == StoreError::Backend,
    ;

    /// Replaces the parents of a document; no version is added. An absent
    /// document is invalid.
    fn update_data_source_document_parents(
        &mut self,
        project: &Project,
        data_source_id: &String,
        document_id: &String,
        parents: &Vec<String>,
    ) -> (r: Result<(), StoreError>)
        requires
            sound(old(self).tables()),
        ensures
            sound(final(self).tables()),
            r is Err ==> final(self).tables() == old(self).tables(),
            r is Ok ==> ({
                let a = old(self).tables();
                let b = final(self).tables();
                b == (
                    Tables {
                        documents: with_doc_parents(
                            a.documents,
                            *project,
                            data_source_id@,
                            document_id@,
                            parents@,
                        ),
                        ..a
                    }
                )
            }),
            !has_doc(old(self).tables().documents, *project, data_source_id@, document_id@)
                ==> r == Err::<(), StoreError>(StoreError::InvalidInput),
            has_doc(old(self).tables().documents, *project, data_source_id@, document_id@)
                && r is Err
                ==> r->Err_0 == StoreError::Backend,
    ;

    /// One page of the versions of a document, oldest first, and the length
    /// of the whole listing. With `latest_hash` the listing is the youngest
    /// version with that hash alone.
    fn list_data_source_document_versions(
        &self,
        project: &Project,
        data_source_id: &String,
        document_id: &String,
        limit_offset: Option<(usize, usize)>,
        latest_hash: &Option<String>,
    ) -> (r: Result<(Vec<DocumentVersion>, usize), StoreError>)
        requires
            sound(self.tables()),
        ensures
            r is Ok ==> ({
                let t = self.tables();
                let v = r->Ok_0;
                &&& (
                    !has_doc(t.documents, *project, data_source_id@, document_id@)
                        ==> v.0@.len() == 0 && v.1 == 0
                )
                &&& (
                    has_doc(t.documents, *project, data_source_id@, document_id@)
                        ==> v.0@ == page_of(
                            listed(
                                doc_of(
                                    t.documents,
                                    *project,
                                    data_source_id@,
                                    document_id@,
                                ).versions,
                                option_view(*latest_hash),
                            ),
                            limit_offset,
                        )
                            && v.1 == listed(
                                doc_of(
                                    t.documents,
                                    *project,
                                    data_source_id@,
                                    document_id@,
                                ).versions,
                                option_view(*latest_hash),
                            ).len()
                )
            }),
            r is Err ==> r->Err_0 == StoreError::Backend,
    ;

    /// One page of the ids of the documents of a data source that pass the
    /// filter, in the order of their creation, and the number of all of them.
    fn find_data_source_document_ids(
        &self,
        project: &Project,
        data_source_id: &String,
        filter: &Option<SearchFilter>,
        limit_offset: Option<(usize, usize)>,
    ) -> (r: Result<(Vec<String>, usize), StoreError>)
        requires
            sound(self.tables()),
        ensures
            r is Ok ==> ({
                let t = self.tables();
                let v = r->Ok_0;
                &&& texts(v.0@) == page_of(
                    found_ids(t.documents, *project, data_source_id@, *filter),
                    limit_offset,
                )
                &&& v.1 == found_ids(t.documents, *project, data_source_id@, *filter).len()
            }),
            r is Err ==> r->Err_0 == StoreError::Backend,
    ;

    /// Deletes a document with all its versions.
    fn delete_data_source_document(
        &mut self,
        project: &Project,
        data_source_id: &String,
        document_id: &String,
    ) -> (r: Result<(), StoreError>)
        requires
            sound(old(self).tables()),
        ensures
            sound(final(self).tables()),
            r is Err ==> final(self).tables() == old(self).tables(),
            r is Ok ==> ({
                let a = old(self).tables();
                let b = final(self).tables();
                b == (
                    Tables {
                        documents: kept_docs(
                            a.documents,
                            *project,
                            Some(data_source_id@),
                            Some(document_id@),
                        ),
                        ..a
                    }
                )
            }),
            r is Err ==> r->Err_0 == StoreError::Backend,
    ;

    /// Deletes a data source: its documents with all their versions, and its
    /// databases with all their tables and rows.
    fn delete_data_source(
        &mut self,
        project: &Project,
        data_source_id: &String,
    ) -> (r: Result<(), StoreError>)
        requires
            sound(old(self).tables()),
        ensures
            sound(final(self).tables()),
            r is Err ==> final(self).tables() == old(self).tables(),
            r is Ok ==> ({
                let a = old(self).tables();
                let b = final(self).tables();
                b == (
                    Tables {
                        data_sources: kept_sources(a.data_sources, *project, Some(data_source_id@)),
                        databases: kept_databases(
                            a.databases,
                            *project,
                            Some(data_source_id@),
                            None,
                        ),
                        documents: kept_docs(a.documents, *project, Some(data_source_id@), None),
                        tables: kept_tables(a.tables, *project, Some(data_source_id@), None),
                        ..a
                    }
                )
            }),
            r is Err ==> r->Err_0 == StoreError::Backend,
    ;

    /// Registers a database of a data source and returns it. An id or a name
    /// that the data source already has is a conflict.
    fn register_database(
        &mut self,
        project: &Project,
        data_source_id: &String,
        database_id: &String,
        name: &String,
    ) -> (r: Result<Database, StoreError>)
        requires
            sound(old(self).tables()),
        ensures
            sound(final(self).tables()),
            r is Err ==> final(self).tables() == old(self).tables(),
            r is Ok ==> ({
                let a = old(self).tables();
                let b = final(self).tables();
                let v = r->Ok_0;
                &&& v == (
                    Database {
                        project: *project,
                        data_source_id: *data_source_id,
                        database_id: *database_id,
                        name: *name,
                    }
                )
                &&& b == (Tables { databases: a.databases.push(v), ..a })
            }),
            (
                has_database(old(self).tables().databases, *project, data_source_id@, database_id@)
                    || has_database_name(
                        old(self).tables().databases,
                        *project,
                        data_source_id@,
                        name@,
                    )
            )
                ==> r == Err::<Database, StoreError>(StoreError::Conflict),
            !(
                has_database(old(self).tables().databases, *project, data_source_id@, database_id@)
                    || has_database_name(
                        old(self).tables().databases,
                        *project,
                        data_source_id@,
                        name@,
                    )
            )
                && r is Err
                ==> r->Err_0 == StoreError::Backend,
    ;

    /// The database with the id.
    fn load_database(
        &self,
        project: &Project,
        data_source_id: &String,
        database_id: &String,
    ) -> (r: Result<Option<Database>, StoreError>)
        requires
            sound(self.tables()),
        ensures
            r is Ok ==> ({
                let t = self.tables();
                let v = r->Ok_0;
                &&& (
                    v is Some
                        <==> has_database(t.databases, *project, data_source_id@, database_id@)
                )
                &&& (
                    v is Some
                        ==> v->0 == t.databases[
                            database_index(t.databases, *project, data_source_id@, database_id@)
                        ]
                )
            }),
            r is Err ==> r->Err_0 == StoreError::Backend,
    ;

    /// One page of the databases of a data source, in the order of their
    /// registration.
    fn list_databases(
        &self,
        project: &Project,
        data_source_id: &String,
        limit_offset: Option<(usize, usize)>,
    ) -> (r: Result<Vec<Database>, StoreError>)
        requires
            sound(self.tables()),
        ensures
            r is Ok ==> ({
                let t = self.tables();
                let v = r->Ok_0;
                v@ == page_of(databases_of(t.databases, *project, data_source_id@), limit_offset)
            }),
            r is Err ==> r->Err_0 == StoreError::Backend,
    ;

    /// Creates the table, or gives an existing table the name and the
    /// description, and returns the table as it then stands. A name that
    /// another table of the database has is a conflict.
    fn upsert_database_table(
        &mut self,
        project: &Project,
        data_source_id: &String,
        database_id: &String,
        table_id: &String,
        name: &String,
        description: &String,
    ) -> (r: Result<DatabaseTable, StoreError>)
        requires
            sound(old(self).tables()),
        ensures
            sound(final(self).tables()),
            r is Err ==> final(self).tables() == old(self).tables(),
            r is Ok ==> ({
                let a = old(self).tables();
                let b = final(self).tables();
                let v = r->Ok_0;
                &&& b == (
                    Tables {
                        tables: upserted_table(
                            a.tables,
                            *project,
                            data_source_id@,
                            database_id@,
                            table_id@,
                            name@,
                            description@,
                        ),
                        ..a
                    }
                )
                &&& v@ == head_of(
                    table_of(
                        upserted_table(
                            a.tables,
                            *project,
                            data_source_id@,
                            database_id@,
                            table_id@,
                            name@,
                            description@,
                        ),
                        *project,
                        data_source_id@,
                        database_id@,
                        table_id@,
                    ),
                )
            }),
            name_taken(
                old(self).tables().tables,
                *project,
                data_source_id@,
                database_id@,
                table_id@,
                name@,
            )
                ==> r == Err::<DatabaseTable, StoreError>(StoreError::Conflict),
            !name_taken(
                old(self).tables().tables,
                *project,
                data_source_id@,
                database_id@,
                table_id@,
                name@,
            )
                && r is Err
                ==> r->Err_0 == StoreError::Backend,
    ;

    /// Records the column shape last seen on a write; the rows are not held
    /// to it. An absent table is invalid.
    fn update_database_table_schema(
        &mut self,
        project: &Project,
        data_source_id: &String,
        database_id: &String,
        table_id: &String,
        schema: &String,
    ) -> (r: Result<(), StoreError>)
        requires
            sound(old(self).tables()),
        ensures
            sound(final(self).tables()),
            r is Err ==> final(self).tables() == old(self).tables(),
            r is Ok ==> ({
                let a = old(self).tables();
                let b = final(self).tables();
                b == (
                    Tables {
                        tables: with_schema(
                            a.tables,
                            *project,
                            data_source_id@,
                            database_id@,
                            table_id@,
                            schema@,
                        ),
                        ..a
                    }
                )
            }),
            !has_table(
                old(self).tables().tables,
                *project,
                data_source_id@,
                database_id@,
                table_id@,
            )
                ==> r == Err::<(), StoreError>(StoreError::InvalidInput),
            has_table(old(self).tables().tables, *project, data_source_id@, database_id@, table_id@)
                && r is Err
                ==> r->Err_0 == StoreError::Backend,
    ;

    /// The table with the key, without its rows.
    fn load_database_table(
        &self,
        project: &Project,
        data_source_id: &String,
        database_id: &String,
        table_id: &String,
    ) -> (r: Result<Option<DatabaseTable>, StoreError>)
        requires
            sound(self.tables()),
        ensures
            r is Ok ==> ({
                let t = self.tables();
                let v = r->Ok_0;
                &&& (
                    v is Some
                        <==> has_table(t.tables, *project, data_source_id@, database_id@, table_id@)
                )
                &&& (
                    v is Some
                        ==> (v->0)@ == head_of(
                            table_of(t.tables, *project, data_source_id@, database_id@, table_id@),
                        )
                )
            }),
            r is Err ==> r->Err_0 == StoreError::Backend,
    ;

    /// One page of the tables of a database, without their rows, in the
    /// order of their creation, and the number of all of them.
    fn list_databases_tables(
        &self,
        project: &Project,
        data_source_id: &String,
        database_id: &String,
        limit_offset: Option<(usize, usize)>,
    ) -> (r: Result<(Vec<DatabaseTable>, usize), StoreError>)
        requires
            sound(self.tables()),
        ensures
            r is Ok ==> ({
                let t = self.tables();
                let v = r->Ok_0;
                &&& heads(v.0@) == page_of(
                    heads_of(t.tables, *project, data_source_id@, database_id@),
                    limit_offset,
                )
                &&& v.1 == heads_of(t.tables, *project, data_source_id@, database_id@).len()
            }),
            r is Err ==> r->Err_0 == StoreError::Backend,
    ;

    /// Writes a batch of rows to a table. With `truncate` the batch replaces
    /// the whole content in one step; without it each row is upserted by its
    /// id, first to last. An absent table is invalid.
    fn batch_upsert_database_rows(
        &mut self,
        project: &Project,
        data_source_id: &String,
        database_id: &String,
        table_id: &String,
        rows: &Vec<DatabaseRow>,
        truncate: bool,
    ) -> (r: Result<(), StoreError>)
        requires
            sound(old(self).tables()),
        ensures
            sound(final(self).tables()),
            r is Err ==> final(self).tables() == old(self).tables(),
            r is Ok ==> ({
                let a = old(self).tables();
                let b = final(self).tables();
                b == (
                    Tables {
                        tables: with_rows(
                            a.tables,
                            *project,
                            data_source_id@,
                            database_id@,
                            table_id@,
                            batch_result(
                                table_of(
                                    a.tables,
                                    *project,
                                    data_source_id@,
                                    database_id@,
                                    table_id@,
                                ).rows,
                                rows@,
                                truncate,
                            ),
                        ),
                        ..a
                    }
                )
            }),
            !has_table(
                old(self).tables().tables,
                *project,
                data_source_id@,
                database_id@,
                table_id@,
            )
                ==> r == Err::<(), StoreError>(StoreError::InvalidInput),
            has_table(old(self).tables().tables, *project, data_source_id@, database_id@, table_id@)
                && r is Err
                ==> r->Err_0 == StoreError::Backend,
    ;

    /// The row with the id in the table.
    fn load_database_row(
        &self,
        project: &Project,
        data_source_id: &String,
        database_id: &String,
        table_id: &String,
        row_id: &String,
    ) -> (r: Result<Option<DatabaseRow>, StoreError>)
        requires
            sound(self.tables()),
        ensures
            r is Ok ==> ({
                let t = self.tables();
                let v = r->Ok_0;
                &&& (
                    v is Some
                        ==> has_table(t.tables, *project, data_source_id@, database_id@, table_id@)
                )
                &&& (
                    has_table(t.tables, *project, data_source_id@, database_id@, table_id@)
                        ==> (
                            v is Some
                                <==> has_row(
                                    table_of(
                                        t.tables,
                                        *project,
                                        data_source_id@,
                                        database_id@,
                                        table_id@,
                                    ).rows,
                                    row_id@,
                                )
                        )
                            && (
                                v is Some
                                    ==> table_of(
                                        t.tables,
                                        *project,
                                        data_source_id@,
                                        database_id@,
                                        table_id@,
                                    ).rows.contains(v->0)
                                        && (v->0).row_id@ == row_id@
                            )
                )
            }),
            r is Err ==> r->Err_0 == StoreError::Backend,
    ;

    /// One page of the rows of a table, and the number of all its rows.
    fn list_database_rows(
        &self,
        project: &Project,
        data_source_id: &String,
        database_id: &String,
        table_id: &String,
        limit_offset: Option<(usize, usize)>,
    ) -> (r: Result<(Vec<DatabaseRow>, usize), StoreError>)
        requires
            sound(self.tables()),
        ensures
            r is Ok ==> ({
                let t = self.tables();
                let v = r->Ok_0;
                &&& (
                    !has_table(t.tables, *project, data_source_id@, database_id@, table_id@)
                        ==> v.0@.len() == 0 && v.1 == 0
                )
                &&& (
                    has_table(t.tables, *project, data_source_id@, database_id@, table_id@)
                        ==> v.0@ == page_of(
                            table_of(
                                t.tables,
                                *project,
                                data_source_id@,
                                database_id@,
                                table_id@,
                            ).rows,
                            limit_offset,
                        )
                            && v.1 == table_of(
                                t.tables,
                                *project,
                                data_source_id@,
                                database_id@,
                                table_id@,
                            ).rows.len()
                )
            }),
            r is Err ==> r->Err_0 == StoreError::Backend,
    ;

    /// Deletes a database: all its tables and all their rows.
    fn delete_database(
        &mut self,
        project: &Project,
        data_source_id: &String,
        database_id: &String,
    ) -> (r: Result<(), StoreError>)
        requires
            sound(old(self).tables()),
        ensures
            sound(final(self).tables()),
            r is Err ==> final(self).tables() == old(self).tables(),
            r is Ok ==> ({
                let a = old(self).tables();
                let b = final(self).tables();
                b == (
                    Tables {
                        databases: kept_databases(
                            a.databases,
                            *project,
                            Some(data_source_id@),
                            Some(database_id@),
                        ),
                        tables: kept_tables(
                            a.tables,
                            *project,
                            Some(data_source_id@),
                            Some(database_id@),
                        ),
                        ..a
                    }
                )
            }),
            r is Err ==> r->Err_0 == StoreError::Backend,
    ;

    /// Every response stored under the key, oldest first.
    fn cache_get(
        &self,
        project: &Project,
        kind: CacheKind,
        request_hash: &String,
    ) -> (r: Result<Vec<String>, StoreError>)
        requires
            sound(self.tables()),
        ensures
            r is Ok ==> ({
                let t = self.tables();
                let v = r->Ok_0;
                v@ == responses_for(t.cache, *project, kind, request_hash@)
            }),
            r is Err ==> r->Err_0 == StoreError::Backend,
    ;

    /// Appends a response under the key. What the key holds stays: nothing is
    /// merged, replaced or dropped.
    fn cache_store(
        &mut self,
        project: &Project,
        kind: CacheKind,
        request_hash: &String,
        response: &String,
    ) -> (r: Result<(), StoreError>)
        requires
            sound(old(self).tables()),
        ensures
            sound(final(self).tables()),
            r is Err ==> final(self).tables() == old(self).tables(),
            r is Ok ==> ({
                let a = old(self).tables();
                let b = final(self).tables();
                b == (
                    Tables {
                        cache: a.cache.push(
                            (
                                CacheEntry {
                                    project: *project,
                                    kind,
                                    hash: *request_hash,
                                    response: *response,
                                }
                            ),
                        ),
                        ..a
                    }
                )
            }),
            r is Err ==> r->Err_0 == StoreError::Backend,
    ;
}

} // verus!
