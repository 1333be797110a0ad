//! The in-memory backend: the tables live in vectors behind one exclusive
//! handle, so every operation is one step that no other caller can observe
//! half done. It fails only when the project ids are used up.

use vstd::prelude::*;
use crate::blob::{BlockType, Position};
use crate::cache::{Cache, CacheKind};
use crate::datasets::{Dataset, DatasetPoint, DatasetStore};
use crate::document_store::DocumentStore;
use crate::project::{Project, StoreError};
use crate::registry::{DataSource, Database, Registry};
use crate::runs::{Run, RunStore, RunType};
use crate::search::SearchFilter;
use crate::specifications::SpecificationLog;
use crate::store::{empty_tables, sound, Store, Tables};
use crate::table::DatabaseRow;
use crate::table_store::TableStore;
use crate::tables::DatabaseTable;
use crate::versions::DocumentVersion;

verus! {

/// A backend that keeps every table in memory.
pub struct MemoryStore {
    next: i64,
    specs: SpecificationLog,
    datasets: DatasetStore,
    runs: RunStore,
    registry: Registry,
    documents: DocumentStore,
    database_tables: TableStore,
    cache: Cache,
}

impl MemoryStore {
    /// An empty store whose first project gets the id 1.
    pub fn new() -> (r: MemoryStore)
        ensures
            sound(r.tables()),
            r.tables() == empty_tables(1),
    {
        MemoryStore::starting_at(1)
    }

    /// An empty store whose first project gets the id `next`.
    pub fn starting_at(next: i64) -> (r: MemoryStore)
        ensures
            sound(r.tables()),
            r.tables() == empty_tables(next as int),
    {
        let r = MemoryStore {
            next,
            specs: SpecificationLog::new(),
            datasets: DatasetStore::new(),
            runs: RunStore::new(),
            registry: Registry::new(),
            documents: DocumentStore::new(),
            database_tables: TableStore::new(),
            cache: Cache::new(),
        };
        proof {
            assert(r.tables().points =~= Seq::empty());
            assert(r.tables().executions =~= Seq::empty());
        }
        r
    }

    /// The number of stored block executions.
    pub fn execution_count(&self) -> (r: usize)
        ensures
            r == self.tables().executions.len(),
    {
        self.runs.execution_count()
    }

    /// The number of join records from dataset versions to points.
    pub fn point_join_count(&self) -> (r: usize)
        ensures
            r == self.tables().point_joins.len(),
    {
        self.datasets.join_count()
    }

    /// The number of stored dataset points.
    pub fn point_count(&self) -> (r: usize)
        ensures
            r == self.tables().points.len(),
    {
        self.datasets.point_count()
    }
}

impl Store for MemoryStore {
    closed spec fn tables(&self) -> Tables {
        Tables {
            next_project: self.next as int,
            specifications: self.specs.rows@,
            datasets: self.datasets.datasets(),
            point_joins: self.datasets.points().links(),
            points: self.datasets.points().rows(),
            runs: self.runs.runs(),
            joins: self.runs.executions().links(),
            executions: self.runs.executions().rows(),
            data_sources: self.registry.sources(),
            databases: self.registry.databases(),
            documents: self.documents@,
            tables: self.database_tables@,
            cache: self.cache.entries@,
        }
    }

    fn create_project(&mut self) -> (r: Result<Project, StoreError>)
        ensures
            r is Ok <==> old(self).tables().next_project < i64::MAX,
    {
        if self.next == i64::MAX {
            return Err(StoreError::Backend);
        }
        let id: i64 = self.next;
        self.next = id + 1;
        Ok(Project { id })
    }

    fn delete_project(&mut self, project: &Project) -> (r: Result<(), StoreError>)
        ensures
            r is Ok,
    {
        self.specs.delete_project(*project);
        self.datasets.delete_project(*project);
        self.runs.delete_runs(*project, &None);
        self.registry.delete(*project, &None, &None);
        self.documents.delete(*project, &None, &None);
        self.database_tables.delete(*project, &None, &None);
        self.cache.delete_project(*project);
        Ok(())
    }

    fn latest_dataset_hash(
        &self,
        project: &Project,
        dataset_id: &String,
    ) -> (r: Result<Option<String>, StoreError>)
        ensures
            r is Ok,
    {
        Ok(self.datasets.latest_dataset_hash(*project, dataset_id))
    }

    fn register_dataset(
        &mut self,
        project: &Project,
        dataset_id: &String,
        hash: &String,
        points: &Vec<DatasetPoint>,
        now: u64,
    ) -> (r: Result<(), StoreError>)
        ensures
            r is Ok,
    {
        self.datasets.register_dataset(*project, dataset_id, hash, points, now);
        Ok(())
    }

    fn load_dataset(
        &self,
        project: &Project,
        dataset_id: &String,
        hash: &String,
    ) -> (r: Result<Option<Vec<(Position, String)>>, StoreError>)
        ensures
            r is Ok,
    {
        Ok(self.datasets.load_dataset(*project, dataset_id, hash))
    }

    fn list_datasets(&self, project: &Project) -> (r: Result<Vec<Dataset>, StoreError>)
        ensures
            r is Ok,
    {
        Ok(self.datasets.list_datasets(*project))
    }

    fn latest_specification_hash(
        &self,
        project: &Project,
    ) -> (r: Result<Option<String>, StoreError>)
        ensures
            r is Ok,
    {
        Ok(self.specs.latest_hash(*project))
    }

    fn register_specification(
        &mut self,
        project: &Project,
        hash: &String,
        spec: &String,
        now: u64,
    ) -> (r: Result<(), StoreError>)
        ensures
            r is Ok,
    {
        self.specs.register(*project, hash, spec, now);
        Ok(())
    }

    fn load_specification(
        &self,
        project: &Project,
        hash: &String,
    ) -> (r: Result<Option<(u64, String)>, StoreError>)
        ensures
            r is Ok,
    {
        Ok(self.specs.load(*project, hash))
    }

    fn latest_run_id(
        &self,
        project: &Project,
        run_type: RunType,
    ) -> (r: Result<Option<String>, StoreError>)
        ensures
            r is Ok,
    {
        Ok(self.runs.latest_run_id(*project, run_type))
    }

    fn list_runs(
        &self,
        project: &Project,
        run_type: RunType,
        limit_offset: Option<(usize, usize)>,
    ) -> (r: Result<(Vec<Run>, usize), StoreError>)
        ensures
            r is Ok,
    {
        Ok(self.runs.list_runs(*project, run_type, limit_offset))
    }

    fn load_runs(
        &self,
        project: &Project,
        run_ids: &Vec<String>,
    ) -> (r: Result<Vec<Run>, StoreError>)
        ensures
            r is Ok,
    {
        Ok(self.runs.load_runs(*project, run_ids))
    }

    fn create_run_empty(&mut self, project: &Project, run: &Run) -> (r: Result<(), StoreError>)
        ensures
            r is Err ==> r->Err_0 != StoreError::Backend,
    {
        if self.runs.find_run(&run.run_id).is_some() {
            return Err(StoreError::Conflict);
        }
        if run.project != *project {
            return Err(StoreError::InvalidInput);
        }
        self.runs.create_run_empty(run)
    }

    fn update_run_status(
        &mut self,
        project: &Project,
        run_id: &String,
        run_status: &String,
    ) -> (r: Result<(), StoreError>)
        ensures
            r is Ok,
    {
        self.runs.update_run_status(*project, run_id, run_status);
        Ok(())
    }

    fn append_run_block(
        &mut self,
        project: &Project,
        run_id: &String,
        block_type: BlockType,
        block_name: &String,
        position: Position,
        hash: &String,
        execution: &String,
    ) -> (r: Result<(), StoreError>)
        ensures
            r is Err ==> r->Err_0 != StoreError::Backend,
    {
        self.runs.append_run_block(
            *project,
            run_id,
            block_type,
            block_name,
            position,
            hash,
            execution,
        )
    }

    fn load_run(
        &self,
        project: &Project,
        run_id: &String,
        block: &Option<Option<(BlockType, String)>>,
    ) -> (r: Result<Option<(Run, Vec<(Position, String)>)>, StoreError>)
        ensures
            r is Ok,
    {
        Ok(self.runs.load_run(*project, run_id, block))
    }

    fn delete_run(&mut self, project: &Project, run_id: &String) -> (r: Result<(), StoreError>)
        ensures
            r is Ok,
    {
        self.runs.delete_run(*project, run_id);
        Ok(())
    }

    fn has_data_sources(&self, project: &Project) -> (r: Result<bool, StoreError>)
        ensures
            r is Ok,
    {
        Ok(self.registry.has_data_sources(*project))
    }

    fn register_data_source(
        &mut self,
        project: &Project,
        ds: &DataSource,
    ) -> (r: Result<(), StoreError>)
        ensures
            r is Err ==> r->Err_0 != StoreError::Backend,
    {
        if ds.project != *project {
            if self.registry.load_data_source(ds.project, &ds.data_source_id).is_some() {
                return Err(StoreError::Conflict);
            }
            return Err(StoreError::InvalidInput);
        }
        self.registry.register_data_source(ds)
    }

    fn load_data_source(
        &self,
        project: &Project,
        data_source_id: &String,
    ) -> (r: Result<Option<DataSource>, StoreError>)
        ensures
            r is Ok,
    {
        Ok(self.registry.load_data_source(*project, data_source_id))
    }

    fn update_data_source_config(
        &mut self,
        project: &Project,
        data_source_id: &String,
        config: &String,
    ) -> (r: Result<(), StoreError>)
        ensures
            r is Err ==> r->Err_0 != StoreError::Backend,
    {
        self.registry.update_data_source_config(*project, data_source_id, config)
    }

    fn load_data_source_document(
        &self,
        project: &Project,
        data_source_id: &String,
        document_id: &String,
        version_hash: &Option<String>,
    ) -> (r: Result<Option<(DocumentVersion, Vec<String>, Vec<String>, String)>, StoreError>)
        ensures
            r is Ok,
    {
        Ok(self.documents.load_document(*project, data_source_id, document_id, version_hash))
    }

    fn list_data_source_documents(
        &self,
        project: &Project,
        data_source_id: &String,
        limit_offset: Option<(usize, usize)>,
    ) -> (r: Result<(Vec<(String, DocumentVersion)>, usize), StoreError>)
        ensures
            r is Ok,
    {
        Ok(self.documents.list_documents(*project, data_source_id, limit_offset))
    }

    fn upsert_data_source_document(
        &mut self,
        project: &Project,
        data_source_id: &String,
        document_id: &String,
        hash: &String,
        now: u64,
        tags: &Vec<String>,
        parents: &Vec<String>,
        status: &String,
    ) -> (r: Result<bool, StoreError>)
        ensures
            r is Ok,
    {
        Ok(
            self.documents.upsert_document(
                *project,
                data_source_id,
                document_id,
                hash,
                now,
                tags,
                parents,
                status,
            ),
        )
    }

    fn update_data_source_document_tags(
        &mut self,
        project: &Project,
        data_source_id: &String,
        document_id: &String,
        add_tags: &Vec<String>,
        remove_tags: &Vec<String>,
    ) -> (r: Result<Vec<String>, StoreError>)
        ensures
            r is Err ==> r->Err_0 != StoreError::Backend,
    {
        self.documents.update_tags(*project, data_source_id, document_id, add_tags, remove_tags)
    }

    fn update_data_source_document_parents(
        &mut self,
        project: &Project,
        data_source_id: &String,
        document_id: &String,
        parents: &Vec<String>,
    ) -> (r: Result<(), StoreError>)
        ensures
            r is Err ==> r->Err_0 != StoreError::Backend,
    {
        self.documents.update_parents(*project, data_source_id, document_id, parents)
    }

    fn list_data_source_document_versions(
        &self,
        project: &Project,
        data_source_id: &String,
        document_id: &String,
        limit_offset: Option<(usize, usize)>,
        latest_hash: &Option<String>,
    ) -> (r: Result<(Vec<DocumentVersion>, usize), StoreError>)
        ensures
            r is Ok,
    {
        Ok(
            self.documents.list_versions(
                *project,
                data_source_id,
                document_id,
                limit_offset,
                latest_hash,
            ),
        )
    }

    fn find_data_source_document_ids(
        &self,
        project: &Project,
        data_source_id: &String,
        filter: &Option<SearchFilter>,
        limit_offset: Option<(usize, usize)>,
    ) -> (r: Result<(Vec<String>, usize), StoreError>)
        ensures
            r is Ok,
    {
        Ok(self.documents.find_document_ids(*project, data_source_id, filter, limit_offset))
    }

    fn delete_data_source_document(
        &mut self,
        project: &Project,
        data_source_id: &String,
        document_id: &String,
    ) -> (r: Result<(), StoreError>)
        ensures
            r is Ok,
    {
        let ds = Some(data_source_id.clone());
        let id = Some(document_id.clone());
        self.documents.delete(*project, &ds, &id);
        Ok(())
    }

    fn delete_data_source(
        &mut self,
        project: &Project,
        data_source_id: &String,
    ) -> (r: Result<(), StoreError>)
        ensures
            r is Ok,
    {
        let ds = Some(data_source_id.clone());
        self.registry.delete(*project, &ds, &None);
        self.documents.delete(*project, &ds, &None);
        self.database_tables.delete(*project, &ds, &None);
        Ok(())
    }

    fn register_database(
        &mut self,
        project: &Project,
        data_source_id: &String,
        database_id: &String,
        name: &String,
    ) -> (r: Result<Database, StoreError>)
        ensures
            r is Err ==> r->Err_0 != StoreError::Backend,
    {
        self.registry.register_database(*project, data_source_id, database_id, name)
    }

    fn load_database(
        &self,
        project: &Project,
        data_source_id: &String,
        database_id: &String,
    ) -> (r: Result<Option<Database>, StoreError>)
        ensures
            r is Ok,
    {
        Ok(self.registry.load_database(*project, data_source_id, database_id))
    }

    fn list_databases(
        &self,
        project: &Project,
        data_source_id: &String,
        limit_offset: Option<(usize, usize)>,
    ) -> (r: Result<Vec<Database>, StoreError>)
        ensures
            r is Ok,
    {
        Ok(self.registry.list_databases(*project, data_source_id, limit_offset))
    }

    fn upsert_database_table(
        &mut self,
        project: &Project,
        data_source_id: &String,
        database_id: &String,
        table_id: &String,
        name: &String,
        description: &String,
    ) -> (r: Result<DatabaseTable, StoreError>)
        ensures
            r is Err ==> r->Err_0 != StoreError::Backend,
    {
        self.database_tables.upsert_table(
            *project,
            data_source_id,
            database_id,
            table_id,
            name,
            description,
        )
    }

    fn update_database_table_schema(
        &mut self,
        project: &Project,
        data_source_id: &String,
        database_id: &String,
        table_id: &String,
        schema: &String,
    ) -> (r: Result<(), StoreError>)
        ensures
            r is Err ==> r->Err_0 != StoreError::Backend,
    {
        self.database_tables.update_table_schema(
            *project,
            data_source_id,
            database_id,
            table_id,
            schema,
        )
    }

    fn load_database_table(
        &self,
        project: &Project,
        data_source_id: &String,
        database_id: &String,
        table_id: &String,
    ) -> (r: Result<Option<DatabaseTable>, StoreError>)
        ensures
            r is Ok,
    {
        Ok(self.database_tables.load_table(*project, data_source_id, database_id, table_id))
    }

    fn list_databases_tables(
        &self,
        project: &Project,
        data_source_id: &String,
        database_id: &String,
        limit_offset: Option<(usize, usize)>,
    ) -> (r: Result<(Vec<DatabaseTable>, usize), StoreError>)
        ensures
            r is Ok,
    {
        Ok(self.database_tables.list_tables(*project, data_source_id, database_id, limit_offset))
    }

    fn batch_upsert_database_rows(
        &mut self,
        project: &Project,
        data_source_id: &String,
        database_id: &String,
        table_id: &String,
        rows: &Vec<DatabaseRow>,
        truncate: bool,
    ) -> (r: Result<(), StoreError>)
        ensures
            r is Err ==> r->Err_0 != StoreError::Backend,
    {
        self.database_tables.batch_upsert_rows(
            *project,
            data_source_id,
            database_id,
            table_id,
            rows,
            truncate,
        )
    }

    fn load_database_row(
        &self,
        project: &Project,
        data_source_id: &String,
        database_id: &String,
        table_id: &String,
        row_id: &String,
    ) -> (r: Result<Option<DatabaseRow>, StoreError>)
        ensures
            r is Ok,
    {
        Ok(self.database_tables.load_row(*project, data_source_id, database_id, table_id, row_id))
    }

    fn list_database_rows(
        &self,
        project: &Project,
        data_source_id: &String,
        database_id: &String,
        table_id: &String,
        limit_offset: Option<(usize, usize)>,
    ) -> (r: Result<(Vec<DatabaseRow>, usize), StoreError>)
        ensures
            r is Ok,
    {
        Ok(
            self.database_tables.list_rows(
                *project,
                data_source_id,
                database_id,
                table_id,
                limit_offset,
            ),
        )
    }

    fn delete_database(
        &mut self,
        project: &Project,
        data_source_id: &String,
        database_id: &String,
    ) -> (r: Result<(), StoreError>)
        ensures
            r is Ok,
    {
        let ds = Some(data_source_id.clone());
        let db = Some(database_id.clone());
        self.registry.delete(*project, &ds, &db);
        self.database_tables.delete(*project, &ds, &db);
        Ok(())
    }

    fn cache_get(
        &self,
        project: &Project,
        kind: CacheKind,
        request_hash: &String,
    ) -> (r: Result<Vec<String>, StoreError>)
        ensures
            r is Ok,
    {
        Ok(self.cache.get(*project, kind, request_hash))
    }

    fn cache_store(
        &mut self,
        project: &Project,
        kind: CacheKind,
        request_hash: &String,
        response: &String,
    ) -> (r: Result<(), StoreError>)
        ensures
            r is Ok,
    {
        self.cache.store(*project, kind, request_hash, response);
        Ok(())
    }
}

} // verus!
