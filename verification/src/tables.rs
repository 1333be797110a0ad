//! Named tables of a database. A table is known by its project, data
//! source, database and table id; its name is unique within the database;
//! its schema is the shape last seen on a write, kept for information and
//! never enforced on the rows.

use vstd::prelude::*;
use crate::project::Project;
use crate::table::{distinct_ids, DatabaseRow, TableRows};

verus! {

/// What a table holds.
pub struct TableView {
    pub project: Project,
    pub data_source_id: Seq<char>,
    pub database_id: Seq<char>,
    pub table_id: Seq<char>,
    pub name: Seq<char>,
    pub description: Seq<char>,
    pub schema: Option<Seq<char>>,
    pub rows: Seq<DatabaseRow>,
}

/// A stored table.
pub struct Table {
    pub project: Project,
    pub data_source_id: String,
    pub database_id: String,
    pub table_id: String,
    pub name: String,
    pub description: String,
    pub schema: Option<String>,
    pub rows: TableRows,
}

impl Table {
    pub open spec fn view(&self) -> TableView {
        TableView {
            project: self.project,
            data_source_id: self.data_source_id@,
            database_id: self.database_id@,
            table_id: self.table_id@,
            name: self.name@,
            description: self.description@,
            schema: match self.schema {
                None => None,
                Some(s) => Some(s@),
            },
            rows: self.rows@,
        }
    }
}

/// A table without its rows, as reads and writes hand it out.
#[derive(Clone, Debug, PartialEq, Eq)]
pub struct DatabaseTable {
    pub project: Project,
    pub data_source_id: String,
    pub database_id: String,
    pub table_id: String,
    pub name: String,
    pub description: String,
    pub schema: Option<String>,
}

/// What a table holds beside its rows.
pub struct TableHead {
    pub project: Project,
    pub data_source_id: Seq<char>,
    pub database_id: Seq<char>,
    pub table_id: Seq<char>,
    pub name: Seq<char>,
    pub description: Seq<char>,
    pub schema: Option<Seq<char>>,
}

impl DatabaseTable {
    pub open spec fn view(&self) -> TableHead {
        TableHead {
            project: self.project,
            data_source_id: self.data_source_id@,
            database_id: self.database_id@,
            table_id: self.table_id@,
            name: self.name@,
            description: self.description@,
            schema: match self.schema {
                None => None,
                Some(s) => Some(s@),
            },
        }
    }
}

/// The table without its rows.
pub open spec fn head_of(t: TableView) -> TableHead {
    TableHead {
        project: t.project,
        data_source_id: t.data_source_id,
        database_id: t.database_id,
        table_id: t.table_id,
        name: t.name,
        description: t.description,
        schema: t.schema,
    }
}

/// What each of the tables handed out holds.
pub open spec fn heads(s: Seq<DatabaseTable>) -> Seq<TableHead> {
    Seq::new(s.len(), |i: int| s[i]@)
}

/// What each of the tables holds.
pub open spec fn table_views(tables: Seq<Table>) -> Seq<TableView> {
    Seq::new(tables.len(), |i: int| tables[i]@)
}

/// The table belongs to this database.
pub open spec fn in_database(t: TableView, project: Project, ds: Seq<char>, db: Seq<char>) -> bool {
    t.project == project && t.data_source_id == ds && t.database_id == db
}

/// The table is the one with this key.
pub open spec fn is_table(
    t: TableView,
    project: Project,
    ds: Seq<char>,
    db: Seq<char>,
    id: Seq<char>,
) -> bool {
    in_database(t, project, ds, db) && t.table_id == id
}

/// A table with the key is stored.
pub open spec fn has_table(
    tables: Seq<TableView>,
    project: Project,
    ds: Seq<char>,
    db: Seq<char>,
    id: Seq<char>,
) -> bool {
    exists|i: int| 0 <= i < tables.len() && is_table(#[trigger] tables[i], project, ds, db, id)
}

/// A position at which the key is stored, where there is one.
pub open spec fn table_index(
    tables: Seq<TableView>,
    project: Project,
    ds: Seq<char>,
    db: Seq<char>,
    id: Seq<char>,
) -> int {
    choose|i: int| 0 <= i < tables.len() && is_table(#[trigger] tables[i], project, ds, db, id)
}

/// What the table with the key holds.
pub open spec fn table_of(
    tables: Seq<TableView>,
    project: Project,
    ds: Seq<char>,
    db: Seq<char>,
    id: Seq<char>,
) -> TableView {
    tables[table_index(tables, project, ds, db, id)]
}

/// The tables with the schema of one of them replaced.
pub open spec fn with_schema(
    tables: Seq<TableView>,
    project: Project,
    ds: Seq<char>,
    db: Seq<char>,
    id: Seq<char>,
    schema: Seq<char>,
) -> Seq<TableView> {
    tables.update(
        table_index(tables, project, ds, db, id),
        TableView { schema: Some(schema), ..table_of(tables, project, ds, db, id) },
    )
}

/// The tables with the rows of one of them replaced.
pub open spec fn with_rows(
    tables: Seq<TableView>,
    project: Project,
    ds: Seq<char>,
    db: Seq<char>,
    id: Seq<char>,
    rows: Seq<DatabaseRow>,
) -> Seq<TableView> {
    tables.update(
        table_index(tables, project, ds, db, id),
        TableView { rows, ..table_of(tables, project, ds, db, id) },
    )
}

/// Another table of the database, not the one with `id`, has the name.
pub open spec fn name_taken(
    tables: Seq<TableView>,
    project: Project,
    ds: Seq<char>,
    db: Seq<char>,
    id: Seq<char>,
    name: Seq<char>,
) -> bool {
    exists|i: int|
        0 <= i < tables.len() && in_database(#[trigger] tables[i], project, ds, db) && tables[i].table_id
            != id && tables[i].name == name
}

/// Two tables of one database.
pub open spec fn same_database(a: TableView, b: TableView) -> bool {
    in_database(a, b.project, b.data_source_id, b.database_id)
}

/// Within a database no two tables share an id or a name, and within a
/// table no two rows share an id.
pub open spec fn tables_sound(tables: Seq<TableView>) -> bool {
    &&& forall|i: int, j: int|
        0 <= i < j < tables.len() && same_database(#[trigger] tables[i], #[trigger] tables[j])
            ==> tables[i].table_id != tables[j].table_id && tables[i].name != tables[j].name
    &&& forall|i: int| 0 <= i < tables.len() ==> distinct_ids((#[trigger] tables[i]).rows)
}

/// Whether a deletion takes the table: one aimed at a project takes all of
/// its tables, one aimed at a data source all of that source, one aimed at a
/// database all of that database.
pub open spec fn table_in_scope(
    t: TableView,
    project: Project,
    ds: Option<Seq<char>>,
    db: Option<Seq<char>>,
) -> bool {
    &&& t.project == project
    &&& (ds is Some ==> t.data_source_id == ds->0)
    &&& (db is Some ==> t.database_id == db->0)
}

/// The tables that a deletion leaves, in their order.
pub open spec fn kept_tables(
    tables: Seq<TableView>,
    project: Project,
    ds: Option<Seq<char>>,
    db: Option<Seq<char>>,
) -> Seq<TableView>
    decreases tables.len(),
{
    if tables.len() == 0 {
        Seq::empty()
    } else {
        let rest = kept_tables(tables.drop_last(), project, ds, db);
        if table_in_scope(tables.last(), project, ds, db) {
            rest
        } else {
            rest.push(tables.last())
        }
    }
}

/// The tables of a database, without their rows, in the order of their
/// creation.
pub open spec fn heads_of(tables: Seq<TableView>, project: Project, ds: Seq<char>, db: Seq<char>) -> Seq<
    TableHead,
>
    decreases tables.len(),
{
    if tables.len() == 0 {
        Seq::empty()
    } else {
        let rest = heads_of(tables.drop_last(), project, ds, db);
        if in_database(tables.last(), project, ds, db) {
            rest.push(head_of(tables.last()))
        } else {
            rest
        }
    }
}

/// The tables after an upsert of a table's name and description: an
/// existing table keeps its schema and rows, an absent one starts without
/// schema and without rows.
pub open spec fn upserted_table(
    tables: Seq<TableView>,
    project: Project,
    ds: Seq<char>,
    db: Seq<char>,
    id: Seq<char>,
    name: Seq<char>,
    description: Seq<char>,
) -> Seq<TableView> {
    if has_table(tables, project, ds, db, id) {
        let i = table_index(tables, project, ds, db, id);
        tables.update(i, TableView { name, description, ..tables[i] })
    } else {
        tables.push(
            TableView {
                project,
                data_source_id: ds,
                database_id: db,
                table_id: id,
                name,
                description,
                schema: None,
                rows: Seq::empty(),
            },
        )
    }
}

/// In sound tables a key stands at one position only.
pub proof fn lemma_table_index(
    tables: Seq<TableView>,
    i: int,
    project: Project,
    ds: Seq<char>,
    db: Seq<char>,
    id: Seq<char>,
)
    requires
        tables_sound(tables),
        0 <= i < tables.len(),
        is_table(tables[i], project, ds, db, id),
    ensures
        has_table(tables, project, ds, db, id),
        table_index(tables, project, ds, db, id) == i,
{
    let k = table_index(tables, project, ds, db, id);
    if k < i {
        assert(same_database(tables[k], tables[i]));
    } else if i < k {
        assert(same_database(tables[i], tables[k]));
    }
}

/// An upsert under a name that no other table of the database has keeps
/// the tables sound.
pub proof fn lemma_upserted_table_sound(
    tables: Seq<TableView>,
    project: Project,
    ds: Seq<char>,
    db: Seq<char>,
    id: Seq<char>,
    name: Seq<char>,
    description: Seq<char>,
)
    requires
        tables_sound(tables),
        !name_taken(tables, project, ds, db, id, name),
    ensures
        tables_sound(upserted_table(tables, project, ds, db, id, name, description)),
{
    let out = upserted_table(tables, project, ds, db, id, name, description);
    if has_table(tables, project, ds, db, id) {
        let k = table_index(tables, project, ds, db, id);
        assert forall|i: int, j: int|
            0 <= i < j < out.len() && same_database(#[trigger] out[i], #[trigger] out[j]) implies out[i].table_id
            != out[j].table_id && out[i].name != out[j].name by {
            assert(same_database(tables[i], tables[j]));
            if i == k {
                assert(in_database(tables[j], project, ds, db));
            }
            if j == k {
                assert(in_database(tables[i], project, ds, db));
            }
        }
        assert forall|i: int| 0 <= i < out.len() implies distinct_ids((#[trigger] out[i]).rows) by {
            assert(out[i].rows == tables[i].rows);
        }
    } else {
        assert forall|i: int, j: int|
            0 <= i < j < out.len() && same_database(#[trigger] out[i], #[trigger] out[j]) implies out[i].table_id
            != out[j].table_id && out[i].name != out[j].name by {
            if j < tables.len() {
                assert(same_database(tables[i], tables[j]));
            } else {
                assert(in_database(tables[i], project, ds, db));
                assert(!is_table(tables[i], project, ds, db, id));
            }
        }
        assert forall|i: int| 0 <= i < out.len() implies distinct_ids((#[trigger] out[i]).rows) by {
            if i < tables.len() {
                assert(out[i] == tables[i]);
            }
        }
    }
}

/// Replacing the schema or the rows of one table keeps the tables sound.
pub proof fn lemma_table_contents_sound(tables: Seq<TableView>, i: int, t: TableView)
    requires
        tables_sound(tables),
        0 <= i < tables.len(),
        is_table(t, tables[i].project, tables[i].data_source_id, tables[i].database_id, tables[i].table_id),
        t.name == tables[i].name,
        distinct_ids(t.rows),
    ensures
        tables_sound(tables.update(i, t)),
{
    let out = tables.update(i, t);
    assert forall|a: int, b: int|
        0 <= a < b < out.len() && same_database(#[trigger] out[a], #[trigger] out[b]) implies out[a].table_id
        != out[b].table_id && out[a].name != out[b].name by {
        assert(same_database(tables[a], tables[b]));
    }
    assert forall|a: int| 0 <= a < out.len() implies distinct_ids((#[trigger] out[a]).rows) by {
        if a != i {
            assert(out[a] == tables[a]);
        }
    }
}

/// Each kept table is an old one out of scope, in scope none is left, and
/// the kept tables are sound where the old ones were.
pub proof fn lemma_kept_tables(
    tables: Seq<TableView>,
    project: Project,
    ds: Option<Seq<char>>,
    db: Option<Seq<char>>,
)
    ensures
        forall|i: int|
            0 <= i < kept_tables(tables, project, ds, db).len() ==> !table_in_scope(
                #[trigger] kept_tables(tables, project, ds, db)[i],
                project,
                ds,
                db,
            ) && tables.contains(kept_tables(tables, project, ds, db)[i]),
        tables_sound(tables) ==> tables_sound(kept_tables(tables, project, ds, db)),
    decreases tables.len(),
{
    let out = kept_tables(tables, project, ds, db);
    if tables.len() > 0 {
        let head = tables.drop_last();
        let rest = kept_tables(head, project, ds, db);
        lemma_kept_tables(head, project, ds, db);
        assert forall|i: int| 0 <= i < out.len() implies !table_in_scope(
            #[trigger] out[i],
            project,
            ds,
            db,
        ) && tables.contains(out[i]) by {
            if i < rest.len() {
                assert(out[i] == rest[i]);
                let k = choose|k: int| 0 <= k < head.len() && head[k] == rest[i];
                assert(tables[k] == out[i]);
            } else {
                assert(tables[tables.len() - 1] == out[i]);
            }
        }
        if tables_sound(tables) {
            assert(tables_sound(head)) by {
                assert forall|i: int, j: int|
                    0 <= i < j < head.len() && same_database(
                        #[trigger] head[i],
                        #[trigger] head[j],
                    ) implies head[i].table_id != head[j].table_id && head[i].name != head[j].name by {
                    assert(same_database(tables[i], tables[j]));
                }
                assert forall|i: int| 0 <= i < head.len() implies distinct_ids(
                    (#[trigger] head[i]).rows,
                ) by {
                    assert(head[i] == tables[i]);
                }
            }
            assert forall|i: int, j: int|
                0 <= i < j < out.len() && same_database(#[trigger] out[i], #[trigger] out[j]) implies out[i].table_id
                != out[j].table_id && out[i].name != out[j].name by {
                if j < rest.len() {
                    assert(same_database(rest[i], rest[j]));
                } else {
                    assert(out[i] == rest[i]);
                    let k = choose|k: int| 0 <= k < head.len() && head[k] == rest[i];
                    assert(same_database(tables[k], tables[tables.len() - 1]));
                }
            }
            assert forall|i: int| 0 <= i < out.len() implies distinct_ids((#[trigger] out[i]).rows) by {
                if i < rest.len() {
                    assert(out[i] == rest[i]);
                } else {
                    assert(out[i] == tables[tables.len() - 1]);
                }
            }
        }
    }
}

} // verus!
