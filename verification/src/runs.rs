//! Runs and their block executions. A run id is unique over all projects;
//! the executions of a run are content-addressed payloads bound to the run by
//! join records; deleting a run or a project takes its runs, their join
//! records, and the payloads that nothing else refers to, in one step.

use vstd::prelude::*;
use crate::blob::{
    kept_joins, lemma_kept_joins, owned, owned_in_block, selects, with_blob,
    Blob, BlockType, Join, Position,
};
use crate::blob_store::BlobStore;
use crate::page::{page_of, page_window};
use crate::project::{Project, StoreError};
use crate::versions::option_view;

verus! {

/// How a run came about.
#[derive(Clone, Copy, Debug, PartialEq, Eq, Structural)]
pub enum RunType {
    Deploy,
    Local,
    Execute,
}

/// One pipeline execution.
#[derive(Clone, Debug, PartialEq, Eq)]
pub struct Run {
    pub project: Project,
    pub run_id: String,
    pub run_type: RunType,
    pub config: String,
    pub status: String,
}

impl Run {
    pub fn new(
        project: Project,
        run_id: &String,
        run_type: RunType,
        config: &String,
        status: &String,
    ) -> (r: Run)
        ensures
            r == (Run { project, run_id: *run_id, run_type, config: *config, status: *status }),
    {
        Run {
            project,
            run_id: run_id.clone(),
            run_type,
            config: config.clone(),
            status: status.clone(),
        }
    }

    pub fn duplicate(&self) -> (r: Run)
        ensures
            r == *self,
    {
        Run {
            project: self.project,
            run_id: self.run_id.clone(),
            run_type: self.run_type,
            config: self.config.clone(),
            status: self.status.clone(),
        }
    }
}

/// No two runs share an id, whatever their projects.
pub open spec fn distinct_run_ids(runs: Seq<Run>) -> bool {
    forall|i: int, j: int|
        0 <= i < j < runs.len() ==> (#[trigger] runs[i]).run_id@ != (#[trigger] runs[j]).run_id@
}

/// Some run has the id.
pub open spec fn has_run(runs: Seq<Run>, id: Seq<char>) -> bool {
    exists|i: int| 0 <= i < runs.len() && (#[trigger] runs[i]).run_id@ == id
}

/// A position at which the run id stands, where there is one.
pub open spec fn run_index(runs: Seq<Run>, id: Seq<char>) -> int {
    choose|i: int| 0 <= i < runs.len() && (#[trigger] runs[i]).run_id@ == id
}

/// The project has a run with the id.
pub open spec fn has_run_in(runs: Seq<Run>, project: Project, id: Seq<char>) -> bool {
    exists|i: int|
        0 <= i < runs.len() && (#[trigger] runs[i]).run_id@ == id && runs[i].project == project
}

/// Every join record belongs to a run that exists.
pub open spec fn joins_have_runs(joins: Seq<Join>, runs: Seq<Run>) -> bool {
    forall|k: int|
        0 <= k < joins.len() ==> has_run_in(runs, (#[trigger] joins[k]).project, joins[k].owner@)
}

/// Whether a deletion aimed at run `id` of `project` (at the whole project
/// where `id` is `None`) takes the run.
pub open spec fn takes_run(r: Run, project: Project, id: Option<Seq<char>>) -> bool {
    r.project == project && match id {
        None => true,
        Some(o) => r.run_id@ == o,
    }
}

/// The runs that a deletion leaves, in their order.
pub open spec fn kept_runs(runs: Seq<Run>, project: Project, id: Option<Seq<char>>) -> Seq<Run>
    decreases runs.len(),
{
    if runs.len() == 0 {
        Seq::empty()
    } else {
        let rest = kept_runs(runs.drop_last(), project, id);
        if takes_run(runs.last(), project, id) {
            rest
        } else {
            rest.push(runs.last())
        }
    }
}

/// The runs of a project that have the type, in the order of their
/// creation.
pub open spec fn runs_of(runs: Seq<Run>, project: Project, run_type: RunType) -> Seq<Run>
    decreases runs.len(),
{
    if runs.len() == 0 {
        Seq::empty()
    } else {
        let rest = runs_of(runs.drop_last(), project, run_type);
        if runs.last().project == project && runs.last().run_type == run_type {
            rest.push(runs.last())
        } else {
            rest
        }
    }
}

/// For each of the ids, in their order, the run with the id where the
/// project has it.
pub open spec fn runs_found(runs: Seq<Run>, project: Project, ids: Seq<String>) -> Seq<Run>
    decreases ids.len(),
{
    if ids.len() == 0 {
        Seq::empty()
    } else {
        let rest = runs_found(runs, project, ids.drop_last());
        if has_run_in(runs, project, ids.last()@) {
            rest.push(runs[run_index(runs, ids.last()@)])
        } else {
            rest
        }
    }
}

/// Type and name of the block that a load asks for.
pub open spec fn block_choice(block: Option<Option<(BlockType, String)>>) -> Option<
    Option<(BlockType, Seq<char>)>,
> {
    match block {
        None => None,
        Some(None) => Some(None),
        Some(Some(b)) => Some(Some((b.0, b.1@))),
    }
}

/// The executions that a load hands out, in the order in which they were
/// stored: all of the run where `choice` is `None`, none where it is
/// `Some(None)`, and those of one block where it names the block's type and
/// name.
pub open spec fn chosen_executions(
    joins: Seq<Join>,
    blobs: Seq<Blob>,
    project: Project,
    run_id: Seq<char>,
    choice: Option<Option<(BlockType, Seq<char>)>>,
) -> Seq<(Position, String)> {
    match choice {
        None => owned(joins, blobs, project, run_id, None),
        Some(None) => Seq::empty(),
        Some(Some(b)) => owned_in_block(joins, blobs, project, run_id, None, b.0, b.1),
    }
}

/// The runs with the status of run `id` of `project` replaced.
pub open spec fn with_status(
    runs: Seq<Run>,
    project: Project,
    id: Seq<char>,
    status: String,
) -> Seq<
    Run,
> {
    if has_run_in(runs, project, id) {
        let i = run_index(runs, id);
        runs.update(
            i,
            Run {
                project,
                run_id: runs[i].run_id,
                run_type: runs[i].run_type,
                config: runs[i].config,
                status,
            },
        )
    } else {
        runs
    }
}

/// Each kept run is an old one that the deletion does not take, each old one
/// that it does not take is kept, and ids stay distinct.
pub proof fn lemma_kept_runs(runs: Seq<Run>, project: Project, id: Option<Seq<char>>)
    ensures
        forall|i: int|
            0 <= i < kept_runs(runs, project, id).len() ==> !takes_run(
                #[trigger] kept_runs(runs, project, id)[i],
                project,
                id,
            ) && runs.contains(kept_runs(runs, project, id)[i]),
        forall|k: int|
            0 <= k < runs.len() && !takes_run(#[trigger] runs[k], project, id) ==> kept_runs(
                runs,
                project,
                id,
            ).contains(runs[k]),
        distinct_run_ids(runs) ==> distinct_run_ids(kept_runs(runs, project, id)),
    decreases runs.len(),
{
    let out = kept_runs(runs, project, id);
    if runs.len() > 0 {
        let head = runs.drop_last();
        let rest = kept_runs(head, project, id);
        lemma_kept_runs(head, project, id);
        assert forall|i: int| 0 <= i < out.len() implies !takes_run(#[trigger] out[i], project, id)
            && runs.contains(out[i]) by {
            if i < rest.len() {
                assert(out[i] == rest[i]);
                let k = choose|k: int| 0 <= k < head.len() && head[k] == rest[i];
                assert(runs[k] == out[i]);
            } else {
                assert(runs[runs.len() - 1] == out[i]);
            }
        }
        assert forall|k: int|
            0 <= k < runs.len() && !takes_run(#[trigger] runs[k], project, id) implies out.contains(
            runs[k],
        ) by {
            if k < head.len() {
                assert(head[k] == runs[k]);
                let i = choose|i: int| 0 <= i < rest.len() && rest[i] == head[k];
                assert(out[i] == runs[k]);
            } else {
                assert(out[out.len() - 1] == runs[k]);
            }
        }
        if distinct_run_ids(runs) {
            assert(distinct_run_ids(head)) by {
                assert forall|i: int, j: int| 0 <= i < j < head.len() implies (#[trigger] head[i]).run_id@
                    != (#[trigger] head[j]).run_id@ by {
                    assert(runs[i].run_id@ != runs[j].run_id@);
                }
            }
            assert forall|i: int, j: int| 0 <= i < j < out.len() implies (#[trigger] out[i]).run_id@ != (
            #[trigger] out[j]).run_id@ by {
                if j < rest.len() {
                    assert(rest[i].run_id@ != rest[j].run_id@);
                } else {
                    assert(out[i] == rest[i]);
                    let k = choose|k: int| 0 <= k < head.len() && head[k] == rest[i];
                    assert(runs[k].run_id@ != runs[runs.len() - 1].run_id@);
                }
            }
        }
    }
}

/// After a deletion no run of the target is left, and every remaining join
/// record still belongs to a remaining run.
pub proof fn lemma_deletion_leaves_no_dangling(
    runs: Seq<Run>,
    joins: Seq<Join>,
    project: Project,
    id: Option<Seq<char>>,
)
    requires
        joins_have_runs(joins, runs),
    ensures
        joins_have_runs(kept_joins(joins, project, id), kept_runs(runs, project, id)),
        forall|i: int|
            0 <= i < kept_runs(runs, project, id).len() ==> !takes_run(
                #[trigger] kept_runs(runs, project, id)[i],
                project,
                id,
            ),
        forall|i: int|
            0 <= i < kept_joins(joins, project, id).len() ==> !selects(
                #[trigger] kept_joins(joins, project, id)[i],
                project,
                id,
            ),
{
    let kj = kept_joins(joins, project, id);
    let kr = kept_runs(runs, project, id);
    lemma_kept_joins(joins, project, id);
    lemma_kept_runs(runs, project, id);
    assert forall|k: int| 0 <= k < kj.len() implies has_run_in(
        kr,
        (#[trigger] kj[k]).project,
        kj[k].owner@,
    ) by {
        let a = choose|a: int| 0 <= a < joins.len() && joins[a] == kj[k];
        assert(has_run_in(runs, joins[a].project, joins[a].owner@));
        let r = choose|r: int|
            0 <= r < runs.len() && (#[trigger] runs[r]).run_id@ == joins[a].owner@ && runs[r].project
                == joins[a].project;
        assert(!takes_run(runs[r], project, id));
        let s = choose|s: int| 0 <= s < kr.len() && kr[s] == runs[r];
        assert(kr[s].run_id@ == kj[k].owner@ && kr[s].project == kj[k].project);
    }
}

/// A project without runs lists no run, of whatever type.
pub proof fn lemma_no_runs_listed(runs: Seq<Run>, project: Project, run_type: RunType)
    requires
        forall|i: int| 0 <= i < runs.len() ==> runs[i].project != project,
    ensures
        runs_of(runs, project, run_type) == Seq::<Run>::empty(),
    decreases runs.len(),
{
    if runs.len() > 0 {
        let head = runs.drop_last();
        assert forall|i: int| 0 <= i < head.len() implies head[i].project != project by {
            assert(head[i] == runs[i]);
        }
        lemma_no_runs_listed(head, project, run_type);
        assert(runs[runs.len() - 1].project != project);
    }
}

/// The runs table together with the executions of the runs.
pub struct RunStore {
    runs: Vec<Run>,
    executions: BlobStore,
}

impl RunStore {
    /// The runs, in the order of their creation.
    pub closed spec fn runs(&self) -> Seq<Run> {
        self.runs@
    }

    /// The executions and their join records.
    pub closed spec fn executions(&self) -> BlobStore {
        self.executions
    }

    pub open spec fn wf(&self) -> bool {
        &&& distinct_run_ids(self.runs())
        &&& self.executions().wf()
        &&& joins_have_runs(self.executions().links(), self.runs())
    }

    pub fn new() -> (r: RunStore)
        ensures
            r.runs() == Seq::<Run>::empty(),
            r.executions().links() == Seq::<Join>::empty(),
            r.executions().rows().len() == 0,
            r.wf(),
    {
        RunStore { runs: Vec::new(), executions: BlobStore::new() }
    }

    /// The position of the run with the id, if there is one.
    pub fn find_run(&self, run_id: &String) -> (r: Option<usize>)
        ensures
            r is Some <==> has_run(self.runs(), run_id@),
            r is Some ==> r->0 < self.runs().len() && self.runs()[r->0 as int].run_id@ == run_id@,
    {
        let mut i: usize = 0;
        while i < self.runs.len()
            invariant
                i <= self.runs@.len(),
                forall|k: int| 0 <= k < i ==> (#[trigger] self.runs@[k]).run_id@ != run_id@,
            decreases self.runs@.len() - i,
        {
            if self.runs[i].run_id == *run_id {
                return Some(i);
            }
            i = i + 1;
        }
        None
    }

    /// The position of the run with the id within the project, if the
    /// project has it.
    pub fn find_run_in(&self, project: Project, run_id: &String) -> (r: Option<usize>)
        requires
            self.wf(),
        ensures
            r is Some <==> has_run_in(self.runs(), project, run_id@),
            r is Some ==> r->0 == run_index(self.runs(), run_id@) && r->0 < self.runs().len(),
    {
        match self.find_run(run_id) {
            Some(i) => {
                proof {
                    let k = run_index(self.runs(), run_id@);
                    assert(self.runs()[k].run_id@ == self.runs()[i as int].run_id@);
                    assert(k == i);
                    if has_run_in(self.runs(), project, run_id@) {
                        let w = choose|w: int|
                            0 <= w < self.runs().len() && (#[trigger] self.runs()[w]).run_id@
                                == run_id@ && self.runs()[w].project == project;
                        assert(self.runs()[w].run_id@ == self.runs()[i as int].run_id@);
                        assert(w == i);
                    }
                }
                if self.runs[i].project == project {
                    Some(i)
                } else {
                    None
                }
            },
            None => None,
        }
    }

    /// Registers a run without executions. A run id that is already taken,
    /// in any project, is a conflict and leaves everything as it was.
    pub fn create_run_empty(&mut self, run: &Run) -> (r: Result<(), StoreError>)
        requires
            old(self).wf(),
        ensures
            final(self).wf(),
            final(self).executions() == old(self).executions(),
            has_run(old(self).runs(), run.run_id@) ==> r == Err::<(), StoreError>(
                StoreError::Conflict,
            ) && final(self).runs() == old(self).runs(),
            !has_run(old(self).runs(), run.run_id@)
                ==> r is Ok
                && final(self).runs() == old(self).runs().push(*run),
    {
        if self.find_run(&run.run_id).is_some() {
            return Err(StoreError::Conflict);
        }
        let ghost before = self.runs();
        self.runs.push(run.duplicate());
        proof {
            let after = self.runs();
            assert forall|i: int, j: int| 0 <= i < j < after.len() implies (#[trigger] after[i]).run_id@
                != (#[trigger] after[j]).run_id@ by {
                if j == before.len() {
                    assert(before[i].run_id@ != run.run_id@);
                } else {
                    assert(before[i].run_id@ != before[j].run_id@);
                }
            }
            let joins = self.executions().links();
            assert forall|k: int| 0 <= k < joins.len() implies has_run_in(
                after,
                (#[trigger] joins[k]).project,
                joins[k].owner@,
            ) by {
                let w = choose|w: int|
                    0 <= w < before.len() && (#[trigger] before[w]).run_id@ == joins[k].owner@
                        && before[w].project == joins[k].project;
                assert(after[w] == before[w]);
            }
        }
        Ok(())
    }

    /// Replaces the status of a run of the project; an absent run changes
    /// nothing.
    pub fn update_run_status(&mut self, project: Project, run_id: &String, status: &String)
        requires
            old(self).wf(),
        ensures
            final(self).wf(),
            final(self).executions() == old(self).executions(),
            final(self).runs() == with_status(old(self).runs(), project, run_id@, *status),
    {
        match self.find_run_in(project, run_id) {
            Some(i) => {
                let ghost before = self.runs();
                let next = Run {
                    project,
                    run_id: self.runs[i].run_id.clone(),
                    run_type: self.runs[i].run_type,
                    config: self.runs[i].config.clone(),
                    status: status.clone(),
                };
                self.runs[i] = next;
                proof {
                    let after = self.runs();
                    assert(before[i as int].project == project) by {
                        let w = choose|w: int|
                            0 <= w < before.len() && (#[trigger] before[w]).run_id@ == run_id@
                                && before[w].project == project;
                        assert(before[w].run_id@ == before[i as int].run_id@);
                    }
                    assert forall|a: int, b: int| 0 <= a < b < after.len() implies (
                    #[trigger] after[a]).run_id@ != (#[trigger] after[b]).run_id@ by {
                        assert(before[a].run_id@ != before[b].run_id@);
                    }
                    let joins = self.executions().links();
                    assert forall|k: int| 0 <= k < joins.len() implies has_run_in(
                        after,
                        (#[trigger] joins[k]).project,
                        joins[k].owner@,
                    ) by {
                        let w = choose|w: int|
                            0 <= w < before.len() && (#[trigger] before[w]).run_id@
                                == joins[k].owner@ && before[w].project == joins[k].project;
                        assert(after[w].run_id@ == before[w].run_id@);
                        assert(after[w].project == before[w].project);
                    }
                }
            },
            None => {},
        }
    }

    /// Stores one execution of the block with this type and name at
    /// `position` of a run. The payload is stored once per hash. A run that
    /// the project does not have is refused.
    pub fn append_run_block(
        &mut self,
        project: Project,
        run_id: &String,
        block_type: BlockType,
        block_name: &String,
        position: Position,
        hash: &String,
        execution: &String,
    ) -> (r: Result<(), StoreError>)
        requires
            old(self).wf(),
        ensures
            final(self).wf(),
            final(self).runs() == old(self).runs(),
            !has_run_in(old(self).runs(), project, run_id@) ==> r == Err::<(), StoreError>(
                StoreError::InvalidInput,
            ) && final(self).executions() == old(self).executions(),
            has_run_in(old(self).runs(), project, run_id@) ==> r is Ok,
            r is Ok ==> final(self).executions().rows() == with_blob(
                old(self).executions().rows(),
                *hash,
                *execution,
            ),
            r is Ok ==> final(self).executions().links() == old(self).executions().links().push(
                (Join {
                    project,
                    owner: *run_id,
                    version: None,
                    block: Some((block_type, *block_name)),
                    position,
                    hash: *hash,
                }),
            ),
    {
        if self.find_run_in(project, run_id).is_none() {
            return Err(StoreError::InvalidInput);
        }
        let ghost before = self.executions().links();
        let block = Some((block_type, block_name.clone()));
        self.executions.put(project, run_id, &None, &block, position, hash, execution);
        proof {
            let after = self.executions().links();
            let runs = self.runs();
            assert forall|k: int| 0 <= k < after.len() implies has_run_in(
                runs,
                (#[trigger] after[k]).project,
                after[k].owner@,
            ) by {
                if k < before.len() {
                    assert(after[k] == before[k]);
                }
            }
        }
        Ok(())
    }

    /// The run with the id and its executions in the order in which they
    /// were stored, if the project has the run. `block` chooses the
    /// executions: all, none, or those of the block with the type and name.
    pub fn load_run(
        &self,
        project: Project,
        run_id: &String,
        block: &Option<Option<(BlockType, String)>>,
    ) -> (r: Option<(Run, Vec<(Position, String)>)>)
        requires
            self.wf(),
        ensures
            r is Some <==> has_run_in(self.runs(), project, run_id@),
            r is Some ==> (r->0).0 == self.runs()[run_index(self.runs(), run_id@)],
            r is Some ==> (r->0).1@ == chosen_executions(
                self.executions().links(),
                self.executions().rows(),
                project,
                run_id@,
                block_choice(*block),
            ),
    {
        match self.find_run_in(project, run_id) {
            Some(i) => {
                let executions = match block {
                    None => self.executions.load(project, run_id, &None),
                    Some(None) => Vec::new(),
                    Some(Some(b)) => self.executions.load_block(project, run_id, &None, b.0, &b.1),
                };
                Some((self.runs[i].duplicate(), executions))
            },
            None => None,
        }
    }

    /// For each of the ids, in their order, the run with the id where the
    /// project has it.
    pub fn load_runs(&self, project: Project, run_ids: &Vec<String>) -> (r: Vec<Run>)
        requires
            self.wf(),
        ensures
            r@ == runs_found(self.runs(), project, run_ids@),
    {
        let mut out: Vec<Run> = Vec::new();
        let mut k: usize = 0;
        while k < run_ids.len()
            invariant
                k <= run_ids@.len(),
                self.wf(),
                out@ == runs_found(self.runs(), project, run_ids@.take(k as int)),
            decreases run_ids@.len() - k,
        {
            proof {
                assert(run_ids@.take(k + 1).drop_last() =~= run_ids@.take(k as int));
            }
            match self.find_run_in(project, &run_ids[k]) {
                Some(i) => {
                    out.push(self.runs[i].duplicate());
                },
                None => {},
            }
            k = k + 1;
        }
        proof {
            assert(run_ids@.take(k as int) =~= run_ids@);
        }
        out
    }

    /// The project's runs of a type, in the order of their creation.
    fn runs_of_type(&self, project: Project, run_type: RunType) -> (r: Vec<Run>)
        ensures
            r@ == runs_of(self.runs(), project, run_type),
    {
        let mut all: Vec<Run> = Vec::new();
        let mut i: usize = 0;
        while i < self.runs.len()
            invariant
                i <= self.runs@.len(),
                all@ == runs_of(self.runs@.take(i as int), project, run_type),
            decreases self.runs@.len() - i,
        {
            proof {
                assert(self.runs@.take(i + 1).drop_last() =~= self.runs@.take(i as int));
            }
            if self.runs[i].project == project && self.runs[i].run_type == run_type {
                all.push(self.runs[i].duplicate());
            }
            i = i + 1;
        }
        proof {
            assert(self.runs@.take(i as int) =~= self.runs@);
        }
        all
    }

    /// One page of the project's runs of a type, oldest first, and the
    /// number of all of them.
    pub fn list_runs(
        &self,
        project: Project,
        run_type: RunType,
        limit_offset: Option<(usize, usize)>,
    ) -> (r: (Vec<Run>, usize))
        ensures
            r.0@ == page_of(runs_of(self.runs(), project, run_type), limit_offset),
            r.1 == runs_of(self.runs(), project, run_type).len(),
    {
        let all = self.runs_of_type(project, run_type);
        let total: usize = all.len();
        let (start, end) = page_window(total, limit_offset);
        let mut out: Vec<Run> = Vec::new();
        let mut j: usize = start;
        while j < end
            invariant
                start <= j <= end <= all@.len(),
                out@ == all@.subrange(start as int, j as int),
            decreases end - j,
        {
            out.push(all[j].duplicate());
            proof {
                assert(out@ =~= all@.subrange(start as int, j + 1));
            }
            j = j + 1;
        }
        (out, total)
    }

    /// The id of the project's youngest run of a type.
    pub fn latest_run_id(&self, project: Project, run_type: RunType) -> (r: Option<String>)
        ensures
            r is Some <==> runs_of(self.runs(), project, run_type).len() > 0,
            r is Some ==> r->0 == runs_of(self.runs(), project, run_type).last().run_id,
    {
        let all = self.runs_of_type(project, run_type);
        let n: usize = all.len();
        if n == 0 {
            None
        } else {
            Some(all[n - 1].run_id.clone())
        }
    }

    /// Deletes run `run_id` of the project, or every run of the project
    /// where `run_id` is `None`: the runs, their join records, and each
    /// payload that no remaining join record refers to.
    pub fn delete_runs(&mut self, project: Project, run_id: &Option<String>)
        requires
            old(self).wf(),
        ensures
            final(self).wf(),
            final(self).runs() == kept_runs(old(self).runs(), project, option_view(*run_id)),
            final(self).executions().links() == kept_joins(
                old(self).executions().links(),
                project,
                option_view(*run_id),
            ),
            final(self).executions().rows() == crate::blob::swept(
                old(self).executions().rows(),
                final(self).executions().links(),
            ),
    {
        proof {
            lemma_kept_runs(self.runs(), project, option_view(*run_id));
            lemma_deletion_leaves_no_dangling(
                self.runs(),
                self.executions().links(),
                project,
                option_view(*run_id),
            );
        }
        let mut kept: Vec<Run> = Vec::new();
        let mut i: usize = 0;
        while i < self.runs.len()
            invariant
                i <= self.runs@.len(),
                kept@ == kept_runs(self.runs@.take(i as int), project, option_view(*run_id)),
            decreases self.runs@.len() - i,
        {
            proof {
                assert(self.runs@.take(i + 1).drop_last() =~= self.runs@.take(i as int));
            }
            let r = &self.runs[i];
            let taken = r.project == project && match run_id {
                None => true,
                Some(o) => r.run_id == *o,
            };
            if !taken {
                kept.push(r.duplicate());
            }
            i = i + 1;
        }
        proof {
            assert(self.runs@.take(i as int) =~= self.runs@);
        }
        self.executions.remove(project, run_id);
        self.runs = kept;
    }

    /// Deletes one run of the project with everything that exists only
    /// because of it.
    pub fn delete_run(&mut self, project: Project, run_id: &String)
        requires
            old(self).wf(),
        ensures
            final(self).wf(),
            final(self).runs() == kept_runs(old(self).runs(), project, Some(run_id@)),
            final(self).executions().links() == kept_joins(
                old(self).executions().links(),
                project,
                Some(run_id@),
            ),
            final(self).executions().rows() == crate::blob::swept(
                old(self).executions().rows(),
                final(self).executions().links(),
            ),
    {
        let target = Some(run_id.clone());
        self.delete_runs(project, &target);
    }

    /// The number of stored execution payloads.
    pub fn execution_count(&self) -> (r: usize)
        ensures
            r == self.executions().rows().len(),
    {
        self.executions.blob_count()
    }
}

} // verus!
