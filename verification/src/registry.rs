//! The registers of data sources and of databases. A data source id is
//! unique within its project; a database id and a database name are unique
//! within their data source.

use vstd::prelude::*;
use crate::page::{page_of, page_window};
use crate::project::{Project, StoreError};
use crate::versions::option_view;

verus! {

/// A registered data source.
#[derive(Clone, Debug, PartialEq, Eq)]
pub struct DataSource {
    pub project: Project,
    pub data_source_id: String,
    pub internal_id: String,
    pub config: String,
}

/// A registered database.
#[derive(Clone, Debug, PartialEq, Eq)]
pub struct Database {
    pub project: Project,
    pub data_source_id: String,
    pub database_id: String,
    pub name: String,
}

impl DataSource {
    pub fn duplicate(&self) -> (r: DataSource)
        ensures
            r == *self,
    {
        DataSource {
            project: self.project,
            data_source_id: self.data_source_id.clone(),
            internal_id: self.internal_id.clone(),
            config: self.config.clone(),
        }
    }
}

impl Database {
    pub fn duplicate(&self) -> (r: Database)
        ensures
            r == *self,
    {
        Database {
            project: self.project,
            data_source_id: self.data_source_id.clone(),
            database_id: self.database_id.clone(),
            name: self.name.clone(),
        }
    }
}

/// The data source is the one with this key.
pub open spec fn is_source(d: DataSource, project: Project, id: Seq<char>) -> bool {
    d.project == project && d.data_source_id@ == id
}

/// The project has a data source with the id.
pub open spec fn has_source(s: Seq<DataSource>, project: Project, id: Seq<char>) -> bool {
    exists|i: int| 0 <= i < s.len() && is_source(#[trigger] s[i], project, id)
}

/// A position at which the key is registered, where there is one.
pub open spec fn source_index(s: Seq<DataSource>, project: Project, id: Seq<char>) -> int {
    choose|i: int| 0 <= i < s.len() && is_source(#[trigger] s[i], project, id)
}

/// The project has a data source.
pub open spec fn has_sources(s: Seq<DataSource>, project: Project) -> bool {
    exists|i: int| 0 <= i < s.len() && (#[trigger] s[i]).project == project
}

/// No two data sources of a project share an id.
pub open spec fn sources_sound(s: Seq<DataSource>) -> bool {
    forall|i: int, j: int|
        0 <= i < j < s.len() ==> !is_source(
            #[trigger] s[i],
            (#[trigger] s[j]).project,
            s[j].data_source_id@,
        )
}

/// Whether a deletion aimed at data source `id` of `project` (at the whole
/// project where `id` is `None`) takes the data source.
pub open spec fn source_in_scope(d: DataSource, project: Project, id: Option<Seq<char>>) -> bool {
    d.project == project && (id is Some ==> d.data_source_id@ == id->0)
}

/// The data sources that a deletion leaves, in their order.
pub open spec fn kept_sources(s: Seq<DataSource>, project: Project, id: Option<Seq<char>>) -> Seq<
    DataSource,
>
    decreases s.len(),
{
    if s.len() == 0 {
        Seq::empty()
    } else {
        let rest = kept_sources(s.drop_last(), project, id);
        if source_in_scope(s.last(), project, id) {
            rest
        } else {
            rest.push(s.last())
        }
    }
}

/// The data sources with the configuration of one of them replaced.
pub open spec fn with_config(
    s: Seq<DataSource>,
    project: Project,
    id: Seq<char>,
    config: String,
) -> Seq<
    DataSource,
> {
    let i = source_index(s, project, id);
    s.update(
        i,
        DataSource {
            project: s[i].project,
            data_source_id: s[i].data_source_id,
            internal_id: s[i].internal_id,
            config,
        },
    )
}

/// The database belongs to this data source.
pub open spec fn in_source(d: Database, project: Project, ds: Seq<char>) -> bool {
    d.project == project && d.data_source_id@ == ds
}

/// The data source has a database with the id.
pub open spec fn has_database(
    s: Seq<Database>,
    project: Project,
    ds: Seq<char>,
    id: Seq<char>,
) -> bool {
    exists|i: int| 0 <= i < s.len() && in_source(#[trigger] s[i], project, ds) && s[i].database_id@ == id
}

/// A position at which the key is registered, where there is one.
pub open spec fn database_index(
    s: Seq<Database>,
    project: Project,
    ds: Seq<char>,
    id: Seq<char>,
) -> int {
    choose|i: int| 0 <= i < s.len() && in_source(#[trigger] s[i], project, ds) && s[i].database_id@ == id
}

/// The data source has a database with the name.
pub open spec fn has_database_name(
    s: Seq<Database>,
    project: Project,
    ds: Seq<char>,
    name: Seq<char>,
) -> bool {
    exists|i: int| 0 <= i < s.len() && in_source(#[trigger] s[i], project, ds) && s[i].name@ == name
}

/// Within a data source no two databases share an id or a name.
pub open spec fn databases_sound(s: Seq<Database>) -> bool {
    forall|i: int, j: int|
        0 <= i < j < s.len() && in_source(
            #[trigger] s[i],
            (#[trigger] s[j]).project,
            s[j].data_source_id@,
        ) ==> s[i].database_id@ != s[j].database_id@ && s[i].name@ != s[j].name@
}

/// Whether a deletion takes the database: one aimed at a project takes all
/// of its databases, one aimed at a data source all of that source, one
/// aimed at a database that one.
pub open spec fn database_in_scope(
    d: Database,
    project: Project,
    ds: Option<Seq<char>>,
    id: Option<Seq<char>>,
) -> bool {
    &&& d.project == project
    &&& (ds is Some ==> d.data_source_id@ == ds->0)
    &&& (id is Some ==> d.database_id@ == id->0)
}

/// The databases that a deletion leaves, in their order.
pub open spec fn kept_databases(
    s: Seq<Database>,
    project: Project,
    ds: Option<Seq<char>>,
    id: Option<Seq<char>>,
) -> Seq<Database>
    decreases s.len(),
{
    if s.len() == 0 {
        Seq::empty()
    } else {
        let rest = kept_databases(s.drop_last(), project, ds, id);
        if database_in_scope(s.last(), project, ds, id) {
            rest
        } else {
            rest.push(s.last())
        }
    }
}

/// The databases of a data source, in the order of their registration.
pub open spec fn databases_of(s: Seq<Database>, project: Project, ds: Seq<char>) -> Seq<Database>
    decreases s.len(),
{
    if s.len() == 0 {
        Seq::empty()
    } else {
        let rest = databases_of(s.drop_last(), project, ds);
        if in_source(s.last(), project, ds) {
            rest.push(s.last())
        } else {
            rest
        }
    }
}

/// Each kept data source is an old one out of scope, and the kept ones are
/// sound where the old ones were.
pub proof fn lemma_kept_sources(s: Seq<DataSource>, project: Project, id: Option<Seq<char>>)
    ensures
        forall|i: int|
            0 <= i < kept_sources(s, project, id).len() ==> !source_in_scope(
                #[trigger] kept_sources(s, project, id)[i],
                project,
                id,
            ) && s.contains(kept_sources(s, project, id)[i]),
        sources_sound(s) ==> sources_sound(kept_sources(s, project, id)),
    decreases s.len(),
{
    let out = kept_sources(s, project, id);
    if s.len() > 0 {
        let head = s.drop_last();
        let rest = kept_sources(head, project, id);
        lemma_kept_sources(head, project, id);
        assert forall|i: int| 0 <= i < out.len() implies !source_in_scope(
            #[trigger] out[i],
            project,
            id,
        ) && s.contains(out[i]) by {
            if i < rest.len() {
                assert(out[i] == rest[i]);
                let k = choose|k: int| 0 <= k < head.len() && head[k] == rest[i];
                assert(s[k] == out[i]);
            } else {
                assert(s[s.len() - 1] == out[i]);
            }
        }
        if sources_sound(s) {
            assert(sources_sound(head)) by {
                assert forall|i: int, j: int| 0 <= i < j < head.len() implies !is_source(
                    #[trigger] head[i],
                    (#[trigger] head[j]).project,
                    head[j].data_source_id@,
                ) by {
                    assert(!is_source(s[i], s[j].project, s[j].data_source_id@));
                }
            }
            assert forall|i: int, j: int| 0 <= i < j < out.len() implies !is_source(
                #[trigger] out[i],
                (#[trigger] out[j]).project,
                out[j].data_source_id@,
            ) by {
                if j < rest.len() {
                    assert(!is_source(rest[i], rest[j].project, rest[j].data_source_id@));
                } else {
                    assert(out[i] == rest[i]);
                    let k = choose|k: int| 0 <= k < head.len() && head[k] == rest[i];
                    let l = s.len() - 1;
                    assert(!is_source(s[k], s[l].project, s[l].data_source_id@));
                }
            }
        }
    }
}

/// Each kept database is an old one out of scope, and the kept ones are
/// sound where the old ones were.
pub proof fn lemma_kept_databases(
    s: Seq<Database>,
    project: Project,
    ds: Option<Seq<char>>,
    id: Option<Seq<char>>,
)
    ensures
        forall|i: int|
            0 <= i < kept_databases(s, project, ds, id).len() ==> !database_in_scope(
                #[trigger] kept_databases(s, project, ds, id)[i],
                project,
                ds,
                id,
            ) && s.contains(kept_databases(s, project, ds, id)[i]),
        databases_sound(s) ==> databases_sound(kept_databases(s, project, ds, id)),
    decreases s.len(),
{
    let out = kept_databases(s, project, ds, id);
    if s.len() > 0 {
        let head = s.drop_last();
        let rest = kept_databases(head, project, ds, id);
        lemma_kept_databases(head, project, ds, id);
        assert forall|i: int| 0 <= i < out.len() implies !database_in_scope(
            #[trigger] out[i],
            project,
            ds,
            id,
        ) && s.contains(out[i]) by {
            if i < rest.len() {
                assert(out[i] == rest[i]);
                let k = choose|k: int| 0 <= k < head.len() && head[k] == rest[i];
                assert(s[k] == out[i]);
            } else {
                assert(s[s.len() - 1] == out[i]);
            }
        }
        if databases_sound(s) {
            assert(databases_sound(head)) by {
                assert forall|i: int, j: int|
                    0 <= i < j < head.len() && in_source(
                        #[trigger] head[i],
                        (#[trigger] head[j]).project,
                        head[j].data_source_id@,
                    ) implies head[i].database_id@ != head[j].database_id@ && head[i].name@
                    != head[j].name@ by {
                    assert(in_source(s[i], s[j].project, s[j].data_source_id@));
                }
            }
            assert forall|i: int, j: int|
                0 <= i < j < out.len() && in_source(
                    #[trigger] out[i],
                    (#[trigger] out[j]).project,
                    out[j].data_source_id@,
                ) implies out[i].database_id@ != out[j].database_id@ && out[i].name@
                != out[j].name@ by {
                if j < rest.len() {
                    assert(in_source(rest[i], rest[j].project, rest[j].data_source_id@));
                } else {
                    assert(out[i] == rest[i]);
                    let k = choose|k: int| 0 <= k < head.len() && head[k] == rest[i];
                    let l = s.len() - 1;
                    assert(in_source(s[k], s[l].project, s[l].data_source_id@));
                }
            }
        }
    }
}

/// The two registers.
pub struct Registry {
    sources: Vec<DataSource>,
    databases: Vec<Database>,
}

impl Registry {
    /// The data sources, in the order of their registration.
    pub closed spec fn sources(&self) -> Seq<DataSource> {
        self.sources@
    }

    /// The databases, in the order of their registration.
    pub closed spec fn databases(&self) -> Seq<Database> {
        self.databases@
    }

    pub open spec fn wf(&self) -> bool {
        sources_sound(self.sources()) && databases_sound(self.databases())
    }

    pub fn new() -> (r: Registry)
        ensures
            r.sources() == Seq::<DataSource>::empty(),
            r.databases() == Seq::<Database>::empty(),
            r.wf(),
    {
        Registry { sources: Vec::new(), databases: Vec::new() }
    }

    fn find_source(&self, project: Project, id: &String) -> (r: Option<usize>)
        ensures
            r is Some <==> has_source(self.sources(), project, id@),
            r is Some ==> r->0 < self.sources().len() && is_source(
                self.sources()[r->0 as int],
                project,
                id@,
            ),
    {
        let mut i: usize = 0;
        while i < self.sources.len()
            invariant
                i <= self.sources@.len(),
                forall|k: int| 0 <= k < i ==> !is_source(#[trigger] self.sources@[k], project, id@),
            decreases self.sources@.len() - i,
        {
            if self.sources[i].project == project && self.sources[i].data_source_id == *id {
                return Some(i);
            }
            i = i + 1;
        }
        None
    }

    /// Registers a data source. An id that the project already has is a
    /// conflict and changes nothing.
    pub fn register_data_source(&mut self, ds: &DataSource) -> (r: Result<(), StoreError>)
        requires
            old(self).wf(),
        ensures
            final(self).wf(),
            final(self).databases() == old(self).databases(),
            has_source(old(self).sources(), ds.project, ds.data_source_id@) ==> r == Err::<
                (),
                StoreError,
            >(StoreError::Conflict) && final(self).sources() == old(self).sources(),
            !has_source(old(self).sources(), ds.project, ds.data_source_id@)
                ==> r is Ok
                && final(self).sources() == old(self).sources().push(*ds),
    {
        if self.find_source(ds.project, &ds.data_source_id).is_some() {
            return Err(StoreError::Conflict);
        }
        let ghost before = self.sources();
        self.sources.push(ds.duplicate());
        proof {
            let after = self.sources();
            assert forall|i: int, j: int| 0 <= i < j < after.len() implies !is_source(
                #[trigger] after[i],
                (#[trigger] after[j]).project,
                after[j].data_source_id@,
            ) by {
                if j < before.len() {
                    assert(!is_source(before[i], before[j].project, before[j].data_source_id@));
                } else {
                    assert(!is_source(before[i], ds.project, ds.data_source_id@));
                }
            }
        }
        Ok(())
    }

    /// The data source with the id, if the project has it.
    pub fn load_data_source(
        &self,
        project: Project,
        data_source_id: &String,
    ) -> (r: Option<DataSource>)
        requires
            self.wf(),
        ensures
            r is Some <==> has_source(self.sources(), project, data_source_id@),
            r is Some ==> r->0 == self.sources()[source_index(
                self.sources(),
                project,
                data_source_id@,
            )],
    {
        match self.find_source(project, data_source_id) {
            Some(i) => {
                proof {
                    self.lemma_source_index(i as int, project, data_source_id@);
                }
                Some(self.sources[i].duplicate())
            },
            None => None,
        }
    }

    proof fn lemma_source_index(&self, i: int, project: Project, id: Seq<char>)
        requires
            self.wf(),
            0 <= i < self.sources().len(),
            is_source(self.sources()[i], project, id),
        ensures
            source_index(self.sources(), project, id) == i,
    {
        let s = self.sources();
        let k = source_index(s, project, id);
        if k < i {
            assert(!is_source(s[k], s[i].project, s[i].data_source_id@));
        } else if i < k {
            assert(!is_source(s[i], s[k].project, s[k].data_source_id@));
        }
    }

    /// Whether the project has any data source.
    pub fn has_data_sources(&self, project: Project) -> (r: bool)
        ensures
            r == has_sources(self.sources(), project),
    {
        let mut i: usize = 0;
        while i < self.sources.len()
            invariant
                i <= self.sources@.len(),
                forall|k: int| 0 <= k < i ==> (#[trigger] self.sources@[k]).project != project,
            decreases self.sources@.len() - i,
        {
            if self.sources[i].project == project {
                return true;
            }
            i = i + 1;
        }
        false
    }

    /// Replaces the configuration of a data source. An absent data source
    /// is refused.
    pub fn update_data_source_config(
        &mut self,
        project: Project,
        data_source_id: &String,
        config: &String,
    ) -> (r:
        Result<(), StoreError>)
        requires
            old(self).wf(),
        ensures
            final(self).wf(),
            final(self).databases() == old(self).databases(),
            !has_source(old(self).sources(), project, data_source_id@) ==> r == Err::<(), StoreError>(
                StoreError::InvalidInput,
            ) && final(self).sources() == old(self).sources(),
            has_source(old(self).sources(), project, data_source_id@)
                ==> r is Ok
                && final(self).sources() == with_config(old(self).sources(), project, data_source_id@, *config),
    {
        match self.find_source(project, data_source_id) {
            Some(i) => {
                let ghost before = self.sources();
                proof {
                    self.lemma_source_index(i as int, project, data_source_id@);
                }
                let next = DataSource {
                    project: self.sources[i].project,
                    data_source_id: self.sources[i].data_source_id.clone(),
                    internal_id: self.sources[i].internal_id.clone(),
                    config: config.clone(),
                };
                self.sources[i] = next;
                proof {
                    let after = self.sources();
                    assert forall|a: int, b: int| 0 <= a < b < after.len() implies !is_source(
                        #[trigger] after[a],
                        (#[trigger] after[b]).project,
                        after[b].data_source_id@,
                    ) by {
                        assert(!is_source(before[a], before[b].project, before[b].data_source_id@));
                    }
                }
                Ok(())
            },
            None => Err(StoreError::InvalidInput),
        }
    }

    /// Whether the data source has a database with the id, and whether it
    /// has one with the name.
    fn lookup_database(&self, project: Project, ds: &String, id: &String, name: &String) -> (r: (
        Option<usize>,
        bool,
    ))
        ensures
            r.0 is Some <==> has_database(self.databases(), project, ds@, id@),
            r.0 is Some ==> r.0->0 < self.databases().len() && in_source(
                self.databases()[r.0->0 as int],
                project,
                ds@,
            ) && self.databases()[r.0->0 as int].database_id@ == id@,
            r.0 is None ==> r.1 == has_database_name(self.databases(), project, ds@, name@),
    {
        let mut named = false;
        let mut i: usize = 0;
        while i < self.databases.len()
            invariant
                i <= self.databases@.len(),
                forall|k: int|
                    0 <= k < i ==> !(in_source(#[trigger] self.databases@[k], project, ds@)
                        && self.databases@[k].database_id@ == id@),
                named <==> exists|k: int|
                    0 <= k < i && in_source(#[trigger] self.databases@[k], project, ds@)
                        && self.databases@[k].name@ == name@,
            decreases self.databases@.len() - i,
        {
            let d = &self.databases[i];
            if d.project == project && d.data_source_id == *ds {
                if d.database_id == *id {
                    return (Some(i), named);
                }
                if d.name == *name {
                    named = true;
                }
            }
            i = i + 1;
        }
        (None, named)
    }

    /// Registers a database of a data source and returns it. An id or a
    /// name that the data source already has is a conflict and changes
    /// nothing.
    pub fn register_database(
        &mut self,
        project: Project,
        data_source_id: &String,
        database_id: &String,
        name: &String,
    ) -> (r:
        Result<Database, StoreError>)
        requires
            old(self).wf(),
        ensures
            final(self).wf(),
            final(self).sources() == old(self).sources(),
            (has_database(old(self).databases(), project, data_source_id@, database_id@)
                || has_database_name(old(self).databases(), project, data_source_id@, name@)) ==> r
                is Err && r->Err_0 == StoreError::Conflict && final(self).databases() == old(self).databases(),
            !(has_database(old(self).databases(), project, data_source_id@, database_id@)
                || has_database_name(old(self).databases(), project, data_source_id@, name@)) ==> r
                is Ok && r->Ok_0 == (Database {
                project,
                data_source_id: *data_source_id,
                database_id: *database_id,
                name: *name,
            }) && final(self).databases() == old(self).databases().push(r->Ok_0),
    {
        let (found, named) = self.lookup_database(project, data_source_id, database_id, name);
        if found.is_some() || named {
            return Err(StoreError::Conflict);
        }
        let d = Database {
            project,
            data_source_id: data_source_id.clone(),
            database_id: database_id.clone(),
            name: name.clone(),
        };
        let ghost before = self.databases();
        self.databases.push(d.duplicate());
        proof {
            let after = self.databases();
            assert forall|i: int, j: int|
                0 <= i < j < after.len() && in_source(
                    #[trigger] after[i],
                    (#[trigger] after[j]).project,
                    after[j].data_source_id@,
                ) implies after[i].database_id@ != after[j].database_id@ && after[i].name@
                != after[j].name@ by {
                if j < before.len() {
                    assert(in_source(before[i], before[j].project, before[j].data_source_id@));
                } else {
                    assert(in_source(before[i], project, data_source_id@));
                }
            }
        }
        Ok(d)
    }

    /// The database with the id, if the data source has it.
    pub fn load_database(
        &self,
        project: Project,
        data_source_id: &String,
        database_id: &String,
    ) -> (r:
        Option<Database>)
        requires
            self.wf(),
        ensures
            r is Some <==> has_database(self.databases(), project, data_source_id@, database_id@),
            r is Some ==> r->0 == self.databases()[database_index(
                self.databases(),
                project,
                data_source_id@,
                database_id@,
            )],
    {
        let (found, _named) = self.lookup_database(project, data_source_id, database_id, database_id);
        match found {
            Some(i) => {
                proof {
                    let s = self.databases();
                    let k = database_index(s, project, data_source_id@, database_id@);
                    if k < i {
                        assert(in_source(s[k], s[i as int].project, s[i as int].data_source_id@));
                    } else if i < k {
                        assert(in_source(s[i as int], s[k].project, s[k].data_source_id@));
                    }
                }
                Some(self.databases[i].duplicate())
            },
            None => None,
        }
    }

    /// One page of the databases of a data source, in the order of their
    /// registration.
    pub fn list_databases(
        &self,
        project: Project,
        data_source_id: &String,
        limit_offset: Option<(usize, usize)>,
    ) -> (r:
        Vec<Database>)
        ensures
            r@ == page_of(databases_of(self.databases(), project, data_source_id@), limit_offset),
    {
        let mut all: Vec<Database> = Vec::new();
        let mut i: usize = 0;
        while i < self.databases.len()
            invariant
                i <= self.databases@.len(),
                all@ == databases_of(self.databases@.take(i as int), project, data_source_id@),
            decreases self.databases@.len() - i,
        {
            proof {
                assert(self.databases@.take(i + 1).drop_last() =~= self.databases@.take(i as int));
            }
            let d = &self.databases[i];
            if d.project == project && d.data_source_id == *data_source_id {
                all.push(d.duplicate());
            }
            i = i + 1;
        }
        proof {
            assert(self.databases@.take(i as int) =~= self.databases@);
        }
        let (start, end) = page_window(all.len(), limit_offset);
        let mut out: Vec<Database> = Vec::new();
        let mut j: usize = start;
        while j < end
            invariant
                start <= j <= end <= all@.len(),
                out@ == all@.subrange(start as int, j as int),
            decreases end - j,
        {
            out.push(all[j].duplicate());
            proof {
                assert(out@ =~= all@.subrange(start as int, j + 1));
            }
            j = j + 1;
        }
        out
    }

    /// Removes data source `data_source_id` of the project, or all its data
    /// sources where it is `None`, and the databases in scope: database
    /// `database_id` alone where it is given, else every database of the data
    /// sources removed.
    pub fn delete(&mut self, project: Project, data_source_id: &Option<String>, database_id: &Option<String>)
        requires
            old(self).wf(),
        ensures
            final(self).wf(),
            final(self).sources() == if database_id is Some {
                old(self).sources()
            } else {
                kept_sources(old(self).sources(), project, option_view(*data_source_id))
            },
            final(self).databases() == kept_databases(
                old(self).databases(),
                project,
                option_view(*data_source_id),
                option_view(*database_id),
            ),
    {
        let ghost ds = option_view(*data_source_id);
        let ghost id = option_view(*database_id);
        proof {
            lemma_kept_sources(self.sources(), project, ds);
            lemma_kept_databases(self.databases(), project, ds, id);
        }
        if database_id.is_none() {
            let mut kept: Vec<DataSource> = Vec::new();
            let mut i: usize = 0;
            while i < self.sources.len()
                invariant
                    i <= self.sources@.len(),
                    ds == option_view(*data_source_id),
                    kept@ == kept_sources(self.sources@.take(i as int), project, ds),
                decreases self.sources@.len() - i,
            {
                proof {
                    assert(self.sources@.take(i + 1).drop_last() =~= self.sources@.take(i as int));
                }
                let d = &self.sources[i];
                let taken = d.project == project && (match data_source_id {
                    None => true,
                    Some(s) => d.data_source_id == *s,
                });
                if !taken {
                    kept.push(d.duplicate());
                }
                i = i + 1;
            }
            proof {
                assert(self.sources@.take(i as int) =~= self.sources@);
            }
            self.sources = kept;
        }
        let mut kept: Vec<Database> = Vec::new();
        let mut i: usize = 0;
        while i < self.databases.len()
            invariant
                i <= self.databases@.len(),
                ds == option_view(*data_source_id),
                id == option_view(*database_id),
                kept@ == kept_databases(self.databases@.take(i as int), project, ds, id),
            decreases self.databases@.len() - i,
        {
            proof {
                assert(self.databases@.take(i + 1).drop_last() =~= self.databases@.take(i as int));
            }
            let d = &self.databases[i];
            let taken = d.project == project && (match data_source_id {
                None => true,
                Some(s) => d.data_source_id == *s,
            }) && (match database_id {
                None => true,
                Some(s) => d.database_id == *s,
            });
            if !taken {
                kept.push(d.duplicate());
            }
            i = i + 1;
        }
        proof {
            assert(self.databases@.take(i as int) =~= self.databases@);
        }
        self.databases = kept;
    }
}

} // verus!
