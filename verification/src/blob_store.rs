//! The table of payloads and the table of join records, kept together so
//! that every write and every removal is one step that leaves both sound.

use vstd::prelude::*;
use crate::blob::{
    all_referenced, blob_index, distinct_hashes, has_blob, kept_joins, lemma_put_keeps_integrity,
    lemma_removal_keeps_integrity, owned, owned_in_block, referenced, resolved, selects, swept,
    with_blob, Blob, BlockType, Join, Position,
};
use crate::project::Project;
use crate::versions::option_view;

verus! {

fn copy_blob(b: &Blob) -> (r: Blob)
    ensures
        r == *b,
{
    Blob { hash: b.hash.clone(), content: b.content.clone() }
}

fn copy_version(v: &Option<String>) -> (r: Option<String>)
    ensures
        r == *v,
{
    match v {
        None => None,
        Some(s) => Some(s.clone()),
    }
}

fn copy_block(b: &Option<(BlockType, String)>) -> (r: Option<(BlockType, String)>)
    ensures
        r == *b,
{
    match b {
        None => None,
        Some(l) => Some((l.0, l.1.clone())),
    }
}

fn copy_join(j: &Join) -> (r: Join)
    ensures
        r == *j,
{
    Join {
        project: j.project,
        owner: j.owner.clone(),
        version: copy_version(&j.version),
        block: copy_block(&j.block),
        position: j.position,
        hash: j.hash.clone(),
    }
}

fn is_selected(j: &Join, project: Project, owner: &Option<String>) -> (r: bool)
    ensures
        r == selects(*j, project, option_view(*owner)),
{
    j.project == project && match owner {
        None => true,
        Some(o) => j.owner == *o,
    }
}

fn is_referenced(joins: &Vec<Join>, hash: &String) -> (r: bool)
    ensures
        r == referenced(joins@, hash@),
{
    let mut i: usize = 0;
    while i < joins.len()
        invariant
            i <= joins@.len(),
            forall|k: int| 0 <= k < i ==> (#[trigger] joins@[k]).hash@ != hash@,
        decreases joins@.len() - i,
    {
        if joins[i].hash == *hash {
            return true;
        }
        i = i + 1;
    }
    false
}

/// Payloads and their join records.
pub struct BlobStore {
    blobs: Vec<Blob>,
    joins: Vec<Join>,
}

impl BlobStore {
    /// The stored payloads, in the order of first storage.
    pub closed spec fn rows(&self) -> Seq<Blob> {
        self.blobs@
    }

    /// The join records, in the order in which they were written.
    pub closed spec fn links(&self) -> Seq<Join> {
        self.joins@
    }

    /// One row per hash, no dangling join record, no payload without one.
    pub open spec fn wf(&self) -> bool {
        &&& distinct_hashes(self.rows())
        &&& resolved(self.links(), self.rows())
        &&& all_referenced(self.links(), self.rows())
    }

    pub fn new() -> (r: BlobStore)
        ensures
            r.rows() == Seq::<Blob>::empty(),
            r.links() == Seq::<Join>::empty(),
            r.wf(),
    {
        BlobStore { blobs: Vec::new(), joins: Vec::new() }
    }

    /// The number of stored payloads.
    pub fn blob_count(&self) -> (r: usize)
        ensures
            r == self.rows().len(),
    {
        self.blobs.len()
    }

    /// The number of join records.
    pub fn join_count(&self) -> (r: usize)
        ensures
            r == self.links().len(),
    {
        self.joins.len()
    }

    /// The position of the payload with the hash, if it is stored.
    pub fn find_blob(&self, hash: &String) -> (r: Option<usize>)
        ensures
            r is Some <==> has_blob(self.rows(), hash@),
            r is Some ==> r->0 < self.rows().len() && self.rows()[r->0 as int].hash@ == hash@,
    {
        let mut i: usize = 0;
        while i < self.blobs.len()
            invariant
                i <= self.blobs@.len(),
                forall|k: int| 0 <= k < i ==> (#[trigger] self.blobs@[k]).hash@ != hash@,
            decreases self.blobs@.len() - i,
        {
            if self.blobs[i].hash == *hash {
                return Some(i);
            }
            i = i + 1;
        }
        None
    }

    /// The content stored under the hash, if any.
    pub fn content(&self, hash: &String) -> (r: Option<String>)
        requires
            self.wf(),
        ensures
            r is Some <==> has_blob(self.rows(), hash@),
            r is Some ==> r->0 == self.rows()[blob_index(self.rows(), hash@)].content,
    {
        match self.find_blob(hash) {
            Some(b) => {
                proof {
                    let k = blob_index(self.rows(), hash@);
                    assert(self.rows()[k].hash@ == self.rows()[b as int].hash@);
                    assert(k == b);
                }
                Some(self.blobs[b].content.clone())
            },
            None => None,
        }
    }

    /// Stores the payload if its hash is new, and binds it to `position` of
    /// this version of `owner`, in the block named, in either case.
    pub fn put(
        &mut self,
        project: Project,
        owner: &String,
        version: &Option<String>,
        block: &Option<(BlockType, String)>,
        position: Position,
        hash: &String,
        content: &String,
    )
        requires
            old(self).wf(),
        ensures
            final(self).wf(),
            final(self).rows() == with_blob(old(self).rows(), *hash, *content),
            final(self).links() == old(self).links().push(
                (Join {
                    project,
                    owner: *owner,
                    version: *version,
                    block: *block,
                    position,
                    hash: *hash,
                }),
            ),
    {
        let j = Join {
            project,
            owner: owner.clone(),
            version: copy_version(version),
            block: copy_block(block),
            position,
            hash: hash.clone(),
        };
        proof {
            lemma_put_keeps_integrity(self.links(), self.rows(), j, *content);
        }
        if self.find_blob(hash).is_none() {
            self.blobs.push(Blob { hash: hash.clone(), content: content.clone() });
        }
        self.joins.push(j);
    }

    /// What this version of `owner` holds, in the order in which it was
    /// written.
    pub fn load(&self, project: Project, owner: &String, version: &Option<String>) -> (r: Vec<
        (Position, String),
    >)
        requires
            self.wf(),
        ensures
            r@ == owned(self.links(), self.rows(), project, owner@, option_view(*version)),
    {
        let mut out: Vec<(Position, String)> = Vec::new();
        let mut i: usize = 0;
        while i < self.joins.len()
            invariant
                i <= self.joins@.len(),
                self.wf(),
                out@ == owned(
                    self.joins@.take(i as int),
                    self.blobs@,
                    project,
                    owner@,
                    option_view(*version),
                ),
            decreases self.joins@.len() - i,
        {
            proof {
                assert(self.joins@.take(i + 1).drop_last() =~= self.joins@.take(i as int));
            }
            let j = &self.joins[i];
            let same_version = match version {
                None => j.version.is_none(),
                Some(v) => match &j.version {
                    None => false,
                    Some(w) => *w == *v,
                },
            };
            if j.project == project && j.owner == *owner && same_version {
                match self.find_blob(&j.hash) {
                    Some(b) => {
                        proof {
                            let k = blob_index(self.rows(), j.hash@);
                            assert(self.rows()[k].hash@ == self.rows()[b as int].hash@);
                            assert(k == b);
                        }
                        out.push((j.position, self.blobs[b].content.clone()));
                    },
                    None => {
                        proof {
                            assert(has_blob(self.rows(), self.links()[i as int].hash@));
                            assert(false);
                        }
                    },
                }
            }
            i = i + 1;
        }
        proof {
            assert(self.joins@.take(i as int) =~= self.joins@);
        }
        out
    }

    /// What one block of this version of `owner` holds, in the order in
    /// which it was written.
    pub fn load_block(
        &self,
        project: Project,
        owner: &String,
        version: &Option<String>,
        block_type: BlockType,
        block_name: &String,
    ) -> (r: Vec<(Position, String)>)
        requires
            self.wf(),
        ensures
            r@ == owned_in_block(
                self.links(),
                self.rows(),
                project,
                owner@,
                option_view(*version),
                block_type,
                block_name@,
            ),
    {
        let mut out: Vec<(Position, String)> = Vec::new();
        let mut i: usize = 0;
        while i < self.joins.len()
            invariant
                i <= self.joins@.len(),
                self.wf(),
                out@ == owned_in_block(
                    self.joins@.take(i as int),
                    self.blobs@,
                    project,
                    owner@,
                    option_view(*version),
                    block_type,
                    block_name@,
                ),
            decreases self.joins@.len() - i,
        {
            proof {
                assert(self.joins@.take(i + 1).drop_last() =~= self.joins@.take(i as int));
            }
            let j = &self.joins[i];
            let same_version = match version {
                None => j.version.is_none(),
                Some(v) => match &j.version {
                    None => false,
                    Some(w) => *w == *v,
                },
            };
            let same_block = match &j.block {
                None => false,
                Some(b) => b.0 == block_type && b.1 == *block_name,
            };
            if j.project == project && j.owner == *owner && same_version && same_block {
                match self.find_blob(&j.hash) {
                    Some(b) => {
                        proof {
                            let k = blob_index(self.rows(), j.hash@);
                            assert(self.rows()[k].hash@ == self.rows()[b as int].hash@);
                            assert(k == b);
                        }
                        out.push((j.position, self.blobs[b].content.clone()));
                    },
                    None => {
                        proof {
                            assert(has_blob(self.rows(), self.links()[i as int].hash@));
                            assert(false);
                        }
                    },
                }
            }
            i = i + 1;
        }
        proof {
            assert(self.joins@.take(i as int) =~= self.joins@);
        }
        out
    }

    /// Removes the join records of `owner` in `project`, or of the whole
    /// project where `owner` is `None`, and then every payload that no
    /// remaining join record refers to.
    pub fn remove(&mut self, project: Project, owner: &Option<String>)
        requires
            old(self).wf(),
        ensures
            final(self).wf(),
            final(self).links() == kept_joins(old(self).links(), project, option_view(*owner)),
            final(self).rows() == swept(old(self).rows(), final(self).links()),
    {
        proof {
            lemma_removal_keeps_integrity(self.links(), self.rows(), project, option_view(*owner));
        }
        let mut kept: Vec<Join> = Vec::new();
        let mut i: usize = 0;
        while i < self.joins.len()
            invariant
                i <= self.joins@.len(),
                kept@ == kept_joins(self.joins@.take(i as int), project, option_view(*owner)),
            decreases self.joins@.len() - i,
        {
            proof {
                assert(self.joins@.take(i + 1).drop_last() =~= self.joins@.take(i as int));
            }
            if !is_selected(&self.joins[i], project, owner) {
                kept.push(copy_join(&self.joins[i]));
            }
            i = i + 1;
        }
        proof {
            assert(self.joins@.take(i as int) =~= self.joins@);
        }
        let mut live: Vec<Blob> = Vec::new();
        let mut b: usize = 0;
        while b < self.blobs.len()
            invariant
                b <= self.blobs@.len(),
                live@ == swept(self.blobs@.take(b as int), kept@),
            decreases self.blobs@.len() - b,
        {
            proof {
                assert(self.blobs@.take(b + 1).drop_last() =~= self.blobs@.take(b as int));
            }
            if is_referenced(&kept, &self.blobs[b].hash) {
                live.push(copy_blob(&self.blobs[b]));
            }
            b = b + 1;
        }
        proof {
            assert(self.blobs@.take(b as int) =~= self.blobs@);
        }
        self.joins = kept;
        self.blobs = live;
    }
}

} // verus!
