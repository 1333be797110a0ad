//! Content-addressed payloads. A payload is stored once, under the hash of
//! its canonical form; join records bind each logical position of each owner
//! to the stored row, so that equal payloads are shared and the written
//! order can be read back. Removing an owner removes its join records and
//! then exactly those payloads that no remaining join record refers to.

use vstd::prelude::*;
use crate::project::Project;

verus! {

/// Where a payload stands within its owner.
#[derive(Clone, Copy, Debug, PartialEq, Eq, Structural)]
pub struct Position {
    pub block_idx: u64,
    pub input_idx: u64,
    pub map_idx: u64,
}

/// A stored payload.
#[derive(Clone, Debug, PartialEq, Eq)]
pub struct Blob {
    pub hash: String,
    pub content: String,
}

/// The kinds of block of a pipeline.
#[derive(Clone, Copy, Debug, PartialEq, Eq, Structural)]
pub enum BlockType {
    Input,
    Data,
    DataSource,
    Code,
    LLM,
    Chat,
    MapEach,
    Reduce,
    Search,
    Curl,
    Browser,
    While,
    End,
    Database,
}

/// A join record: the payload with `hash` stands at `position` of `owner`,
/// in the version of the owner that `version` names where the owner has
/// versions, and in the block of that type and name where the owner is made
/// of blocks.
#[derive(Clone, Debug, PartialEq, Eq)]
pub struct Join {
    pub project: Project,
    pub owner: String,
    pub version: Option<String>,
    pub block: Option<(BlockType, String)>,
    pub position: Position,
    pub hash: String,
}

/// No two stored payloads share a hash.
pub open spec fn distinct_hashes(blobs: Seq<Blob>) -> bool {
    forall|i: int, j: int|
        0 <= i < j < blobs.len() ==> (#[trigger] blobs[i]).hash@ != (#[trigger] blobs[j]).hash@
}

/// A payload with the hash is stored.
pub open spec fn has_blob(blobs: Seq<Blob>, h: Seq<char>) -> bool {
    exists|i: int| 0 <= i < blobs.len() && (#[trigger] blobs[i]).hash@ == h
}

/// A position at which the hash is stored, where there is one.
pub open spec fn blob_index(blobs: Seq<Blob>, h: Seq<char>) -> int {
    choose|i: int| 0 <= i < blobs.len() && (#[trigger] blobs[i]).hash@ == h
}

/// Some join record refers to the hash.
pub open spec fn referenced(joins: Seq<Join>, h: Seq<char>) -> bool {
    exists|i: int| 0 <= i < joins.len() && (#[trigger] joins[i]).hash@ == h
}

/// Every join record refers to a stored payload.
pub open spec fn resolved(joins: Seq<Join>, blobs: Seq<Blob>) -> bool {
    forall|i: int| 0 <= i < joins.len() ==> has_blob(blobs, (#[trigger] joins[i]).hash@)
}

/// Every stored payload is referred to by some join record.
pub open spec fn all_referenced(joins: Seq<Join>, blobs: Seq<Blob>) -> bool {
    forall|i: int| 0 <= i < blobs.len() ==> referenced(joins, (#[trigger] blobs[i]).hash@)
}

/// The payloads after an insert-if-absent: a hash that is already stored
/// keeps its row, whatever content comes with it.
pub open spec fn with_blob(blobs: Seq<Blob>, hash: String, content: String) -> Seq<Blob> {
    if has_blob(blobs, hash@) {
        blobs
    } else {
        blobs.push(Blob { hash, content })
    }
}

/// Whether a removal aimed at `owner` of `project` (at the whole project
/// where `owner` is `None`) takes the join record.
pub open spec fn selects(j: Join, project: Project, owner: Option<Seq<char>>) -> bool {
    j.project == project && match owner {
        None => true,
        Some(o) => j.owner@ == o,
    }
}

/// The join records that a removal leaves, in their order.
pub open spec fn kept_joins(joins: Seq<Join>, project: Project, owner: Option<Seq<char>>) -> Seq<
    Join,
>
    decreases joins.len(),
{
    if joins.len() == 0 {
        Seq::empty()
    } else {
        let rest = kept_joins(joins.drop_last(), project, owner);
        if selects(joins.last(), project, owner) {
            rest
        } else {
            rest.push(joins.last())
        }
    }
}

/// The payloads that some join record of `joins` refers to, in their order.
pub open spec fn swept(blobs: Seq<Blob>, joins: Seq<Join>) -> Seq<Blob>
    decreases blobs.len(),
{
    if blobs.len() == 0 {
        Seq::empty()
    } else {
        let rest = swept(blobs.drop_last(), joins);
        if referenced(joins, blobs.last().hash@) {
            rest.push(blobs.last())
        } else {
            rest
        }
    }
}

/// The characters of the version that a join record names, if it names one.
pub open spec fn version_of(j: Join) -> Option<Seq<char>> {
    match j.version {
        None => None,
        Some(v) => Some(v@),
    }
}

/// The join record belongs to this version of this owner.
pub open spec fn belongs(
    j: Join,
    project: Project,
    owner: Seq<char>,
    version: Option<Seq<char>>,
) -> bool {
    j.project == project && j.owner@ == owner && version_of(j) == version
}

/// What a version of an owner holds: position and content of each of its
/// join records, in the order in which they were written.
pub open spec fn owned(
    joins: Seq<Join>,
    blobs: Seq<Blob>,
    project: Project,
    owner: Seq<char>,
    version: Option<Seq<char>>,
) -> Seq<(Position, String)>
    decreases joins.len(),
{
    if joins.len() == 0 {
        Seq::empty()
    } else {
        let rest = owned(joins.drop_last(), blobs, project, owner, version);
        let j = joins.last();
        if belongs(j, project, owner, version) {
            rest.push((j.position, blobs[blob_index(blobs, j.hash@)].content))
        } else {
            rest
        }
    }
}

/// Type and name of the block that a join record names, if it names one.
pub open spec fn block_of(j: Join) -> Option<(BlockType, Seq<char>)> {
    match j.block {
        None => None,
        Some(b) => Some((b.0, b.1@)),
    }
}

/// What one block of a version of an owner holds, in the order in which it
/// was written.
pub open spec fn owned_in_block(
    joins: Seq<Join>,
    blobs: Seq<Blob>,
    project: Project,
    owner: Seq<char>,
    version: Option<Seq<char>>,
    block_type: BlockType,
    block_name: Seq<char>,
) -> Seq<(Position, String)>
    decreases joins.len(),
{
    if joins.len() == 0 {
        Seq::empty()
    } else {
        let rest = owned_in_block(
            joins.drop_last(),
            blobs,
            project,
            owner,
            version,
            block_type,
            block_name,
        );
        let j = joins.last();
        if belongs(j, project, owner, version) && block_of(j) == Some((block_type, block_name)) {
            rest.push((j.position, blobs[blob_index(blobs, j.hash@)].content))
        } else {
            rest
        }
    }
}

/// Each kept join record is one of the old ones that the removal does not
/// take, and each old one that it does not take is kept.
pub proof fn lemma_kept_joins(joins: Seq<Join>, project: Project, owner: Option<Seq<char>>)
    ensures
        forall|i: int|
            0 <= i < kept_joins(joins, project, owner).len() ==> !selects(
                #[trigger] kept_joins(joins, project, owner)[i],
                project,
                owner,
            ) && joins.contains(kept_joins(joins, project, owner)[i]),
        forall|k: int|
            0 <= k < joins.len() && !selects(#[trigger] joins[k], project, owner) ==> kept_joins(
                joins,
                project,
                owner,
            ).contains(joins[k]),
    decreases joins.len(),
{
    let out = kept_joins(joins, project, owner);
    if joins.len() > 0 {
        let head = joins.drop_last();
        let rest = kept_joins(head, project, owner);
        lemma_kept_joins(head, project, owner);
        assert forall|i: int| 0 <= i < out.len() implies !selects(#[trigger] out[i], project, owner)
            && joins.contains(out[i]) by {
            if i < rest.len() {
                assert(out[i] == rest[i]);
                let k = choose|k: int| 0 <= k < head.len() && head[k] == rest[i];
                assert(joins[k] == out[i]);
            } else {
                assert(joins[joins.len() - 1] == out[i]);
            }
        }
        assert forall|k: int|
            0 <= k < joins.len() && !selects(#[trigger] joins[k], project, owner) implies out.contains(
            joins[k],
        ) by {
            if k < head.len() {
                assert(head[k] == joins[k]);
                let i = choose|i: int| 0 <= i < rest.len() && rest[i] == head[k];
                assert(out[i] == joins[k]);
            } else {
                assert(out[out.len() - 1] == joins[k]);
            }
        }
    }
}

/// A sweep keeps exactly the payloads that are still referred to, and keeps
/// their hashes distinct.
pub proof fn lemma_swept(blobs: Seq<Blob>, joins: Seq<Join>)
    ensures
        forall|i: int|
            0 <= i < swept(blobs, joins).len() ==> referenced(
                joins,
                (#[trigger] swept(blobs, joins)[i]).hash@,
            ) && blobs.contains(swept(blobs, joins)[i]),
        forall|k: int|
            0 <= k < blobs.len() && referenced(joins, (#[trigger] blobs[k]).hash@) ==> swept(
                blobs,
                joins,
            ).contains(blobs[k]),
        distinct_hashes(blobs) ==> distinct_hashes(swept(blobs, joins)),
    decreases blobs.len(),
{
    let out = swept(blobs, joins);
    if blobs.len() > 0 {
        let head = blobs.drop_last();
        let rest = swept(head, joins);
        lemma_swept(head, joins);
        assert forall|i: int| 0 <= i < out.len() implies referenced(joins, (#[trigger] out[i]).hash@)
            && blobs.contains(out[i]) by {
            if i < rest.len() {
                assert(out[i] == rest[i]);
                let k = choose|k: int| 0 <= k < head.len() && head[k] == rest[i];
                assert(blobs[k] == out[i]);
            } else {
                assert(blobs[blobs.len() - 1] == out[i]);
            }
        }
        assert forall|k: int|
            0 <= k < blobs.len() && referenced(joins, (#[trigger] blobs[k]).hash@) implies out.contains(
            blobs[k],
        ) by {
            if k < head.len() {
                assert(head[k] == blobs[k]);
                let i = choose|i: int| 0 <= i < rest.len() && rest[i] == head[k];
                assert(out[i] == blobs[k]);
            } else {
                assert(out[out.len() - 1] == blobs[k]);
            }
        }
        if distinct_hashes(blobs) {
            assert(distinct_hashes(head)) by {
                assert forall|i: int, j: int| 0 <= i < j < head.len() implies (#[trigger] head[i]).hash@
                    != (#[trigger] head[j]).hash@ by {
                    assert(blobs[i].hash@ != blobs[j].hash@);
                }
            }
            assert forall|i: int, j: int| 0 <= i < j < out.len() implies (#[trigger] out[i]).hash@ != (
            #[trigger] out[j]).hash@ by {
                if j < rest.len() {
                    assert(rest[i].hash@ != rest[j].hash@);
                } else {
                    assert(out[i] == rest[i]);
                    let k = choose|k: int| 0 <= k < head.len() && head[k] == rest[i];
                    assert(blobs[k].hash@ != blobs[blobs.len() - 1].hash@);
                }
            }
        }
    }
}

/// A payload stored twice has one row: the second insert changes nothing,
/// the hash is stored, and hashes stay distinct, so both join records
/// resolve to that one row and to its content.
pub proof fn lemma_stored_twice_one_row(blobs: Seq<Blob>, hash: String, first: String, second: String)
    requires
        distinct_hashes(blobs),
    ensures
        with_blob(with_blob(blobs, hash, first), hash, second) == with_blob(blobs, hash, first),
        has_blob(with_blob(blobs, hash, first), hash@),
        distinct_hashes(with_blob(blobs, hash, first)),
{
    let once = with_blob(blobs, hash, first);
    if !has_blob(blobs, hash@) {
        assert(once[blobs.len() as int].hash@ == hash@);
        assert forall|i: int, j: int| 0 <= i < j < once.len() implies (#[trigger] once[i]).hash@ != (
        #[trigger] once[j]).hash@ by {
            if j == blobs.len() {
                assert(blobs[i].hash@ != hash@);
            } else {
                assert(blobs[i].hash@ != blobs[j].hash@);
            }
        }
    }
}

/// In payloads with distinct hashes a hash stands at one position only.
pub proof fn lemma_blob_index(blobs: Seq<Blob>, i: int)
    requires
        distinct_hashes(blobs),
        0 <= i < blobs.len(),
    ensures
        blob_index(blobs, blobs[i].hash@) == i,
{
    let k = blob_index(blobs, blobs[i].hash@);
    if k < i {
        assert(blobs[k].hash@ != blobs[i].hash@);
    } else if i < k {
        assert(blobs[i].hash@ != blobs[k].hash@);
    }
}

/// Storing a payload changes nothing in what the join records written
/// before resolve to.
pub proof fn lemma_earlier_references_stay(
    joins: Seq<Join>,
    blobs: Seq<Blob>,
    hash: String,
    content: String,
    project: Project,
    owner: Seq<char>,
    version: Option<Seq<char>>,
)
    requires
        distinct_hashes(blobs),
        resolved(joins, blobs),
    ensures
        owned(joins, with_blob(blobs, hash, content), project, owner, version) == owned(
            joins,
            blobs,
            project,
            owner,
            version,
        ),
    decreases joins.len(),
{
    if joins.len() > 0 {
        let head = joins.drop_last();
        let nb = with_blob(blobs, hash, content);
        assert(resolved(head, blobs)) by {
            assert forall|i: int| 0 <= i < head.len() implies has_blob(
                blobs,
                (#[trigger] head[i]).hash@,
            ) by {
                assert(head[i] == joins[i]);
            }
        }
        lemma_earlier_references_stay(head, blobs, hash, content, project, owner, version);
        lemma_stored_twice_one_row(blobs, hash, content, content);
        let j = joins[joins.len() - 1];
        assert(has_blob(blobs, j.hash@));
        let b = blob_index(blobs, j.hash@);
        lemma_blob_index(blobs, b);
        assert(nb[b] == blobs[b]);
        lemma_blob_index(nb, b);
    }
}

/// Read order is write order: a join record written last is read last, with
/// the content stored under its hash, and what was written before reads as
/// before. Two join records with one hash therefore read the same content.
pub proof fn lemma_written_last_is_read_last(
    joins: Seq<Join>,
    blobs: Seq<Blob>,
    j: Join,
    content: String,
)
    requires
        distinct_hashes(blobs),
        resolved(joins, blobs),
    ensures
        owned(
            joins.push(j),
            with_blob(blobs, j.hash, content),
            j.project,
            j.owner@,
            version_of(j),
        ) == owned(joins, blobs, j.project, j.owner@, version_of(j)).push(
            (
                j.position,
                with_blob(blobs, j.hash, content)[blob_index(
                    with_blob(blobs, j.hash, content),
                    j.hash@,
                )].content,
            ),
        ),
        has_blob(blobs, j.hash@) ==> with_blob(blobs, j.hash, content)[blob_index(
            with_blob(blobs, j.hash, content),
            j.hash@,
        )].content == blobs[blob_index(blobs, j.hash@)].content,
        !has_blob(blobs, j.hash@) ==> with_blob(blobs, j.hash, content)[blob_index(
            with_blob(blobs, j.hash, content),
            j.hash@,
        )].content == content,
{
    let nb = with_blob(blobs, j.hash, content);
    lemma_earlier_references_stay(
        joins,
        blobs,
        j.hash,
        content,
        j.project,
        j.owner@,
        version_of(j),
    );
    lemma_stored_twice_one_row(blobs, j.hash, content, content);
    assert(joins.push(j).drop_last() =~= joins);
    if !has_blob(blobs, j.hash@) {
        assert(nb[blobs.len() as int].hash@ == j.hash@);
        lemma_blob_index(nb, blobs.len() as int);
    }
}

/// After a removal no join record dangles, no payload is left without a join
/// record, and a payload that another owner still refers to is still stored.
pub proof fn lemma_removal_keeps_integrity(
    joins: Seq<Join>,
    blobs: Seq<Blob>,
    project: Project,
    owner: Option<Seq<char>>,
)
    requires
        distinct_hashes(blobs),
        resolved(joins, blobs),
    ensures
        distinct_hashes(swept(blobs, kept_joins(joins, project, owner))),
        resolved(
            kept_joins(joins, project, owner),
            swept(blobs, kept_joins(joins, project, owner)),
        ),
        all_referenced(
            kept_joins(joins, project, owner),
            swept(blobs, kept_joins(joins, project, owner)),
        ),
        forall|k: int|
            0 <= k < joins.len() && !selects(#[trigger] joins[k], project, owner) ==> has_blob(
                swept(blobs, kept_joins(joins, project, owner)),
                joins[k].hash@,
            ),
{
    let kj = kept_joins(joins, project, owner);
    let sw = swept(blobs, kj);
    lemma_kept_joins(joins, project, owner);
    lemma_swept(blobs, kj);
    assert forall|k: int|
        0 <= k < joins.len() && !selects(#[trigger] joins[k], project, owner) implies has_blob(
        sw,
        joins[k].hash@,
    ) by {
        let i = choose|i: int| 0 <= i < kj.len() && kj[i] == joins[k];
        assert(kj[i].hash@ == joins[k].hash@);
        assert(referenced(kj, joins[k].hash@));
        let b = blob_index(blobs, joins[k].hash@);
        assert(blobs[b].hash@ == joins[k].hash@);
        let s = choose|s: int| 0 <= s < sw.len() && sw[s] == blobs[b];
        assert(sw[s].hash@ == joins[k].hash@);
    }
    assert forall|i: int| 0 <= i < kj.len() implies has_blob(sw, (#[trigger] kj[i]).hash@) by {
        let k = choose|k: int| 0 <= k < joins.len() && joins[k] == kj[i];
        assert(!selects(joins[k], project, owner));
    }
}

/// Storing a payload at a position keeps hashes distinct, leaves no join
/// record dangling and no payload without a join record.
pub proof fn lemma_put_keeps_integrity(joins: Seq<Join>, blobs: Seq<Blob>, j: Join, content: String)
    requires
        distinct_hashes(blobs),
        resolved(joins, blobs),
        all_referenced(joins, blobs),
    ensures
        distinct_hashes(with_blob(blobs, j.hash, content)),
        resolved(joins.push(j), with_blob(blobs, j.hash, content)),
        all_referenced(joins.push(j), with_blob(blobs, j.hash, content)),
{
    let nb = with_blob(blobs, j.hash, content);
    let nj = joins.push(j);
    lemma_stored_twice_one_row(blobs, j.hash, content, content);
    assert forall|i: int| 0 <= i < nj.len() implies has_blob(nb, (#[trigger] nj[i]).hash@) by {
        if i < joins.len() {
            assert(nj[i] == joins[i]);
            let b = blob_index(blobs, joins[i].hash@);
            assert(nb[b] == blobs[b]);
        }
    }
    assert forall|b: int| 0 <= b < nb.len() implies referenced(nj, (#[trigger] nb[b]).hash@) by {
        if b < blobs.len() {
            assert(nb[b] == blobs[b]);
            let i = choose|i: int| 0 <= i < joins.len() && (#[trigger] joins[i]).hash@ == blobs[b].hash@;
            assert(nj[i] == joins[i]);
        } else {
            assert(nj[joins.len() as int].hash@ == j.hash@);
        }
    }
}

} // verus!
