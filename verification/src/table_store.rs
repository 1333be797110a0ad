//! The table of tables, with the writes to one table and the deletions
//! that take a database, a data source or a project with all their rows.

use vstd::prelude::*;
use crate::page::{page_of, page_window};
use crate::project::{Project, StoreError};
use crate::table::{batch_result, has_row, DatabaseRow, TableRows};
use crate::tables::{
    has_table, head_of, heads, heads_of, in_database, is_table, kept_tables, table_of,
    DatabaseTable, lemma_kept_tables, lemma_table_contents_sound,
    lemma_table_index, lemma_upserted_table_sound, name_taken, table_index, table_views,
    tables_sound, upserted_table, Table, TableView,
};
use crate::versions::option_view;

verus! {

fn copy_table(t: &Table) -> (r: Table)
    ensures
        r@ == t@,
{
    Table {
        project: t.project,
        data_source_id: t.data_source_id.clone(),
        database_id: t.database_id.clone(),
        table_id: t.table_id.clone(),
        name: t.name.clone(),
        description: t.description.clone(),
        schema: match &t.schema {
            None => None,
            Some(s) => Some(s.clone()),
        },
        rows: t.rows.duplicate(),
    }
}

fn describe(t: &Table) -> (r: DatabaseTable)
    ensures
        r@ == head_of(t@),
{
    DatabaseTable {
        project: t.project,
        data_source_id: t.data_source_id.clone(),
        database_id: t.database_id.clone(),
        table_id: t.table_id.clone(),
        name: t.name.clone(),
        description: t.description.clone(),
        schema: match &t.schema {
            None => None,
            Some(s) => Some(s.clone()),
        },
    }
}

fn copy_head(t: &DatabaseTable) -> (r: DatabaseTable)
    ensures
        r@ == t@,
{
    DatabaseTable {
        project: t.project,
        data_source_id: t.data_source_id.clone(),
        database_id: t.database_id.clone(),
        table_id: t.table_id.clone(),
        name: t.name.clone(),
        description: t.description.clone(),
        schema: match &t.schema {
            None => None,
            Some(s) => Some(s.clone()),
        },
    }
}

/// The tables of all databases.
pub struct TableStore {
    tables: Vec<Table>,
}

impl TableStore {
    /// What the tables hold, in the order of their creation.
    pub closed spec fn view(&self) -> Seq<TableView> {
        table_views(self.tables@)
    }

    pub open spec fn wf(&self) -> bool {
        tables_sound(self@)
    }

    pub fn new() -> (r: TableStore)
        ensures
            r@ == Seq::<TableView>::empty(),
            r.wf(),
    {
        let r = TableStore { tables: Vec::new() };
        proof {
            assert(r@ =~= Seq::<TableView>::empty());
        }
        r
    }

    /// The position of the table with the key, if it is stored.
    pub fn find_table(
        &self,
        project: Project,
        data_source_id: &String,
        database_id: &String,
        table_id: &String,
    ) -> (r:
        Option<usize>)
        ensures
            r is Some <==> has_table(self@, project, data_source_id@, database_id@, table_id@),
            r is Some ==> r->0 < self@.len() && is_table(
                self@[r->0 as int],
                project,
                data_source_id@,
                database_id@,
                table_id@,
            ),
    {
        let mut i: usize = 0;
        while i < self.tables.len()
            invariant
                i <= self.tables@.len(),
                forall|k: int|
                    0 <= k < i ==> !is_table(
                        #[trigger] table_views(self.tables@)[k],
                        project,
                        data_source_id@,
                        database_id@,
                        table_id@,
                    ),
            decreases self.tables@.len() - i,
        {
            let t = &self.tables[i];
            if t.project == project && t.data_source_id == *data_source_id && t.database_id
                == *database_id && t.table_id == *table_id {
                assert(is_table(
                    table_views(self.tables@)[i as int],
                    project,
                    data_source_id@,
                    database_id@,
                    table_id@,
                ));
                return Some(i);
            }
            i = i + 1;
        }
        None
    }

    fn name_is_taken(
        &self,
        project: Project,
        data_source_id: &String,
        database_id: &String,
        table_id: &String,
        name: &String,
    ) -> (r: bool)
        ensures
            r == name_taken(self@, project, data_source_id@, database_id@, table_id@, name@),
    {
        let mut i: usize = 0;
        while i < self.tables.len()
            invariant
                i <= self.tables@.len(),
                forall|k: int|
                    0 <= k < i ==> !(in_database(
                        #[trigger] table_views(self.tables@)[k],
                        project,
                        data_source_id@,
                        database_id@,
                    ) && table_views(self.tables@)[k].table_id != table_id@ && table_views(
                        self.tables@,
                    )[k].name == name@),
            decreases self.tables@.len() - i,
        {
            let t = &self.tables[i];
            if t.project == project && t.data_source_id == *data_source_id && t.database_id
                == *database_id && t.table_id != *table_id && t.name == *name {
                assert(in_database(
                    table_views(self.tables@)[i as int],
                    project,
                    data_source_id@,
                    database_id@,
                ));
                return true;
            }
            i = i + 1;
        }
        false
    }

    /// Creates the table, or gives an existing table the name and the
    /// description, and returns the table as it then stands. A name that
    /// another table of the database has is a conflict and changes nothing.
    pub fn upsert_table(
        &mut self,
        project: Project,
        data_source_id: &String,
        database_id: &String,
        table_id: &String,
        name: &String,
        description: &String,
    ) -> (r: Result<DatabaseTable, StoreError>)
        requires
            old(self).wf(),
        ensures
            final(self).wf(),
            name_taken(old(self)@, project, data_source_id@, database_id@, table_id@, name@) ==> r
                is Err && r->Err_0 == StoreError::Conflict && final(self)@ == old(self)@,
            r is Ok ==> has_table(final(self)@, project, data_source_id@, database_id@, table_id@)
                && (r->Ok_0)@ == head_of(
                table_of(final(self)@, project, data_source_id@, database_id@, table_id@),
            ),
            !name_taken(old(self)@, project, data_source_id@, database_id@, table_id@, name@) ==> r is Ok
                && final(self)@ == upserted_table(
                old(self)@,
                project,
                data_source_id@,
                database_id@,
                table_id@,
                name@,
                description@,
            ),
    {
        if self.name_is_taken(project, data_source_id, database_id, table_id, name) {
            return Err(StoreError::Conflict);
        }
        let ghost before = self@;
        proof {
            lemma_upserted_table_sound(
                before,
                project,
                data_source_id@,
                database_id@,
                table_id@,
                name@,
                description@,
            );
        }
        match self.find_table(project, data_source_id, database_id, table_id) {
            Some(i) => {
                let mut t = self.tables.remove(i);
                t.name = name.clone();
                t.description = description.clone();
                proof {
                    lemma_table_index(
                        before,
                        i as int,
                        project,
                        data_source_id@,
                        database_id@,
                        table_id@,
                    );
                }
                let described = describe(&t);
                self.tables.insert(i, t);
                proof {
                    assert(self@ =~= before.update(i as int, t@));
                    lemma_table_index(
                        self@,
                        i as int,
                        project,
                        data_source_id@,
                        database_id@,
                        table_id@,
                    );
                }
                Ok(described)
            },
            None => {
                let t = Table {
                    project,
                    data_source_id: data_source_id.clone(),
                    database_id: database_id.clone(),
                    table_id: table_id.clone(),
                    name: name.clone(),
                    description: description.clone(),
                    schema: None,
                    rows: TableRows::new(),
                };
                let described = describe(&t);
                self.tables.push(t);
                proof {
                    assert(self@ =~= before.push(t@));
                    lemma_table_index(
                        self@,
                        before.len() as int,
                        project,
                        data_source_id@,
                        database_id@,
                        table_id@,
                    );
                }
                Ok(described)
            },
        }
    }

    /// Records the column shape last seen on a write. The rows are not held
    /// to it. An absent table is refused.
    pub fn update_table_schema(
        &mut self,
        project: Project,
        data_source_id: &String,
        database_id: &String,
        table_id: &String,
        schema: &String,
    ) -> (r: Result<(), StoreError>)
        requires
            old(self).wf(),
        ensures
            final(self).wf(),
            !has_table(old(self)@, project, data_source_id@, database_id@, table_id@) ==> r == Err::<
                (),
                StoreError,
            >(StoreError::InvalidInput) && final(self)@ == old(self)@,
            has_table(old(self)@, project, data_source_id@, database_id@, table_id@) ==> {
                let i = table_index(old(self)@, project, data_source_id@, database_id@, table_id@);
                &&& r is Ok
                &&& final(self)@ == old(self)@.update(
                    i,
                    (TableView { schema: Some(schema@), ..old(self)@[i] }),
                )
            },
    {
        let ghost before = self@;
        match self.find_table(project, data_source_id, database_id, table_id) {
            Some(i) => {
                let mut t = self.tables.remove(i);
                t.schema = Some(schema.clone());
                proof {
                    lemma_table_index(
                        before,
                        i as int,
                        project,
                        data_source_id@,
                        database_id@,
                        table_id@,
                    );
                    lemma_table_contents_sound(before, i as int, t@);
                }
                self.tables.insert(i, t);
                proof {
                    assert(self@ =~= before.update(i as int, t@));
                }
                Ok(())
            },
            None => Err(StoreError::InvalidInput),
        }
    }

    /// Writes a batch of rows to a table; see `TableRows::batch_upsert_rows`.
    /// An absent table is refused.
    pub fn batch_upsert_rows(
        &mut self,
        project: Project,
        data_source_id: &String,
        database_id: &String,
        table_id: &String,
        rows: &Vec<DatabaseRow>,
        truncate: bool,
    ) -> (r: Result<(), StoreError>)
        requires
            old(self).wf(),
        ensures
            final(self).wf(),
            !has_table(old(self)@, project, data_source_id@, database_id@, table_id@) ==> r == Err::<
                (),
                StoreError,
            >(StoreError::InvalidInput) && final(self)@ == old(self)@,
            has_table(old(self)@, project, data_source_id@, database_id@, table_id@) ==> {
                let i = table_index(old(self)@, project, data_source_id@, database_id@, table_id@);
                &&& r is Ok
                &&& final(self)@ == old(self)@.update(
                    i,
                    (TableView {
                        rows: batch_result(old(self)@[i].rows, rows@, truncate),
                        ..old(self)@[i]
                    }),
                )
            },
    {
        let ghost before = self@;
        match self.find_table(project, data_source_id, database_id, table_id) {
            Some(i) => {
                let mut t = self.tables.remove(i);
                assert(t@ == before[i as int]);
                t.rows.batch_upsert_rows(rows, truncate);
                proof {
                    lemma_table_index(
                        before,
                        i as int,
                        project,
                        data_source_id@,
                        database_id@,
                        table_id@,
                    );
                    lemma_table_contents_sound(before, i as int, t@);
                }
                self.tables.insert(i, t);
                proof {
                    assert(self@ =~= before.update(i as int, t@));
                }
                Ok(())
            },
            None => Err(StoreError::InvalidInput),
        }
    }

    /// The row with the id in the table, if table and row exist.
    pub fn load_row(
        &self,
        project: Project,
        data_source_id: &String,
        database_id: &String,
        table_id: &String,
        row_id: &String,
    ) -> (r: Option<DatabaseRow>)
        requires
            self.wf(),
        ensures
            r is Some ==> has_table(self@, project, data_source_id@, database_id@, table_id@),
            has_table(self@, project, data_source_id@, database_id@, table_id@) ==> {
                let t = self@[table_index(self@, project, data_source_id@, database_id@, table_id@)];
                &&& r is Some <==> has_row(t.rows, row_id@)
                &&& r is Some ==> t.rows.contains(r->0) && (r->0).row_id@ == row_id@
            },
    {
        match self.find_table(project, data_source_id, database_id, table_id) {
            Some(i) => {
                proof {
                    lemma_table_index(
                        self@,
                        i as int,
                        project,
                        data_source_id@,
                        database_id@,
                        table_id@,
                    );
                }
                self.tables[i].rows.load_row(row_id)
            },
            None => None,
        }
    }

    /// One page of the rows of a table, and the number of all its rows. An
    /// absent table lists nothing.
    pub fn list_rows(
        &self,
        project: Project,
        data_source_id: &String,
        database_id: &String,
        table_id: &String,
        limit_offset: Option<(usize, usize)>,
    ) -> (r: (Vec<DatabaseRow>, usize))
        requires
            self.wf(),
        ensures
            !has_table(self@, project, data_source_id@, database_id@, table_id@) ==> r.0@.len() == 0
                && r.1 == 0,
            has_table(self@, project, data_source_id@, database_id@, table_id@) ==> {
                let t = self@[table_index(self@, project, data_source_id@, database_id@, table_id@)];
                &&& r.0@ == page_of(t.rows, limit_offset)
                &&& r.1 == t.rows.len()
            },
    {
        match self.find_table(project, data_source_id, database_id, table_id) {
            Some(i) => {
                proof {
                    lemma_table_index(
                        self@,
                        i as int,
                        project,
                        data_source_id@,
                        database_id@,
                        table_id@,
                    );
                }
                self.tables[i].rows.list_rows(limit_offset)
            },
            None => (Vec::new(), 0),
        }
    }

    /// The table with the key, without its rows.
    pub fn load_table(
        &self,
        project: Project,
        data_source_id: &String,
        database_id: &String,
        table_id: &String,
    ) -> (r: Option<DatabaseTable>)
        requires
            self.wf(),
        ensures
            r is Some <==> has_table(self@, project, data_source_id@, database_id@, table_id@),
            r is Some ==> (r->0)@ == head_of(
                table_of(self@, project, data_source_id@, database_id@, table_id@),
            ),
    {
        match self.find_table(project, data_source_id, database_id, table_id) {
            Some(i) => {
                proof {
                    lemma_table_index(
                        self@,
                        i as int,
                        project,
                        data_source_id@,
                        database_id@,
                        table_id@,
                    );
                }
                Some(describe(&self.tables[i]))
            },
            None => None,
        }
    }

    /// One page of the tables of a database, without their rows, in the
    /// order of their creation, and the number of all of them.
    pub fn list_tables(
        &self,
        project: Project,
        data_source_id: &String,
        database_id: &String,
        limit_offset: Option<(usize, usize)>,
    ) -> (r: (Vec<DatabaseTable>, usize))
        ensures
            heads(r.0@) == page_of(
                heads_of(self@, project, data_source_id@, database_id@),
                limit_offset,
            ),
            r.1 == heads_of(self@, project, data_source_id@, database_id@).len(),
    {
        let mut all: Vec<DatabaseTable> = Vec::new();
        let mut i: usize = 0;
        proof {
            assert(table_views(self.tables@.take(0)) =~= Seq::<TableView>::empty());
            assert(heads(all@) =~= Seq::<crate::tables::TableHead>::empty());
        }
        while i < self.tables.len()
            invariant
                i <= self.tables@.len(),
                heads(all@) == heads_of(
                    table_views(self.tables@.take(i as int)),
                    project,
                    data_source_id@,
                    database_id@,
                ),
            decreases self.tables@.len() - i,
        {
            proof {
                assert(table_views(self.tables@.take(i + 1)).drop_last() =~= table_views(
                    self.tables@.take(i as int),
                ));
                assert(table_views(self.tables@.take(i + 1)).last() == self.tables@[i as int]@);
            }
            let t = &self.tables[i];
            if t.project == project && t.data_source_id == *data_source_id && t.database_id
                == *database_id {
                let ghost prev = heads(all@);
                let d = describe(t);
                all.push(d);
                proof {
                    assert(heads(all@) =~= prev.push(head_of(t@)));
                }
            }
            i = i + 1;
        }
        proof {
            assert(self.tables@.take(i as int) =~= self.tables@);
        }
        let total: usize = all.len();
        let (start, end) = page_window(total, limit_offset);
        let mut out: Vec<DatabaseTable> = Vec::new();
        let mut j: usize = start;
        proof {
            assert(heads(out@) =~= heads(all@).subrange(start as int, start as int));
        }
        while j < end
            invariant
                start <= j <= end <= all@.len(),
                heads(out@) == heads(all@).subrange(start as int, j as int),
            decreases end - j,
        {
            let ghost prev = heads(out@);
            let c = copy_head(&all[j]);
            out.push(c);
            proof {
                assert(heads(out@) =~= prev.push(c@));
                assert(heads(out@) =~= heads(all@).subrange(start as int, j + 1));
            }
            j = j + 1;
        }
        (out, total)
    }

    /// Deletes the tables in scope with all their rows: those of one
    /// database, of one data source, or of a whole project.
    pub fn delete(&mut self, project: Project, data_source_id: &Option<String>, database_id: &Option<String>)
        requires
            old(self).wf(),
        ensures
            final(self).wf(),
            final(self)@ == kept_tables(
                old(self)@,
                project,
                option_view(*data_source_id),
                option_view(*database_id),
            ),
    {
        let ghost ds = option_view(*data_source_id);
        let ghost db = option_view(*database_id);
        proof {
            lemma_kept_tables(self@, project, ds, db);
        }
        let mut kept: Vec<Table> = Vec::new();
        let mut i: usize = 0;
        proof {
            assert(table_views(kept@) =~= Seq::<TableView>::empty());
            assert(table_views(self.tables@.take(0)) =~= Seq::<TableView>::empty());
        }
        while i < self.tables.len()
            invariant
                i <= self.tables@.len(),
                ds == option_view(*data_source_id),
                db == option_view(*database_id),
                table_views(kept@) == kept_tables(
                    table_views(self.tables@.take(i as int)),
                    project,
                    ds,
                    db,
                ),
            decreases self.tables@.len() - i,
        {
            proof {
                assert(table_views(self.tables@.take(i + 1)).drop_last() =~= table_views(
                    self.tables@.take(i as int),
                ));
                assert(table_views(self.tables@.take(i + 1)).last() == self.tables@[i as int]@);
            }
            let t = &self.tables[i];
            let taken = t.project == project && (match data_source_id {
                None => true,
                Some(s) => t.data_source_id == *s,
            }) && (match database_id {
                None => true,
                Some(s) => t.database_id == *s,
            });
            if !taken {
                let ghost prev = table_views(kept@);
                let c = copy_table(t);
                kept.push(c);
                proof {
                    assert(table_views(kept@) =~= prev.push(c@));
                }
            }
            i = i + 1;
        }
        proof {
            assert(self.tables@.take(i as int) =~= self.tables@);
        }
        self.tables = kept;
    }
}

} // verus!
