//! Datasets: named, hash-versioned sequences of points. The points are
//! content-addressed payloads shared between dataset versions; every version
//! has its own join records, one per point, which keep the order of its
//! points.

use vstd::prelude::*;
use crate::blob::{
    distinct_hashes, kept_joins, lemma_kept_joins, lemma_stored_twice_one_row, owned, swept,
    with_blob, Blob, Join, Position,
};
use crate::blob_store::BlobStore;
use crate::project::Project;

verus! {

/// One point of a dataset: the hash of its canonical form and its JSON.
#[derive(Clone, Debug, PartialEq, Eq)]
pub struct DatasetPoint {
    pub hash: String,
    pub json: String,
}

/// One registered version of a dataset.
#[derive(Clone, Debug, PartialEq, Eq)]
pub struct Dataset {
    pub project: Project,
    pub dataset_id: String,
    pub hash: String,
    pub created: u64,
}

/// The project has this version of this dataset.
pub open spec fn has_dataset(
    ds: Seq<Dataset>,
    project: Project,
    id: Seq<char>,
    hash: Seq<char>,
) -> bool {
    exists|i: int|
        0 <= i < ds.len() && (#[trigger] ds[i]).project == project && ds[i].dataset_id@ == id
            && ds[i].hash@ == hash
}

/// The position of the youngest version of the dataset, if it has one.
pub open spec fn latest_dataset(ds: Seq<Dataset>, project: Project, id: Seq<char>) -> Option<int>
    decreases ds.len(),
{
    if ds.len() == 0 {
        None
    } else if ds.last().project == project && ds.last().dataset_id@ == id {
        Some(ds.len() - 1)
    } else {
        latest_dataset(ds.drop_last(), project, id)
    }
}

/// The payloads after storing each point, first to last, if absent.
pub open spec fn with_points(rows: Seq<Blob>, points: Seq<DatasetPoint>) -> Seq<Blob>
    decreases points.len(),
{
    if points.len() == 0 {
        rows
    } else {
        with_blob(with_points(rows, points.drop_last()), points.last().hash, points.last().json)
    }
}

/// The join records after binding each point to its index in version `hash`
/// of dataset `dataset_id`.
pub open spec fn with_point_joins(
    links: Seq<Join>,
    project: Project,
    dataset_id: String,
    hash: String,
    points: Seq<DatasetPoint>,
) -> Seq<Join>
    decreases points.len(),
{
    if points.len() == 0 {
        links
    } else {
        with_point_joins(links, project, dataset_id, hash, points.drop_last()).push(
            Join {
                project,
                owner: dataset_id,
                version: Some(hash),
                block: None,
                position: Position {
                    block_idx: (points.len() - 1) as u64,
                    input_idx: 0,
                    map_idx: 0,
                },
                hash: points.last().hash,
            },
        )
    }
}

/// The dataset versions of a project, in the order of their registration.
pub open spec fn datasets_of(ds: Seq<Dataset>, project: Project) -> Seq<Dataset>
    decreases ds.len(),
{
    if ds.len() == 0 {
        Seq::empty()
    } else {
        let rest = datasets_of(ds.drop_last(), project);
        if ds.last().project == project {
            rest.push(ds.last())
        } else {
            rest
        }
    }
}

/// The dataset versions after registering `d`: a version that the project
/// already has is not registered again.
pub open spec fn datasets_after(ds: Seq<Dataset>, d: Dataset) -> Seq<Dataset> {
    if has_dataset(ds, d.project, d.dataset_id@, d.hash@) {
        ds
    } else {
        ds.push(d)
    }
}

/// The points after registering version `hash` of dataset `id`: each point
/// of a new version is stored unless a payload with its hash is stored
/// already, whichever dataset brought it.
pub open spec fn points_after(
    ds: Seq<Dataset>,
    rows: Seq<Blob>,
    project: Project,
    id: Seq<char>,
    hash: Seq<char>,
    points: Seq<DatasetPoint>,
) -> Seq<Blob> {
    if has_dataset(ds, project, id, hash) {
        rows
    } else {
        with_points(rows, points)
    }
}

/// The join records after registering version `hash` of dataset `id`: a new
/// version always gets one join record per point, in order, also where its
/// points are stored already.
pub open spec fn point_joins_after(
    ds: Seq<Dataset>,
    links: Seq<Join>,
    project: Project,
    id: String,
    hash: String,
    points: Seq<DatasetPoint>,
) -> Seq<Join> {
    if has_dataset(ds, project, id@, hash@) {
        links
    } else {
        with_point_joins(links, project, id, hash, points)
    }
}

/// Every join record names a dataset version, and that version exists.
pub open spec fn joins_have_datasets(links: Seq<Join>, ds: Seq<Dataset>) -> bool {
    forall|k: int|
        0 <= k < links.len() ==> (#[trigger] links[k]).version is Some && has_dataset(
            ds,
            links[k].project,
            links[k].owner@,
            (links[k].version->0)@,
        )
}

/// A new version gets as many join records as it has points.
pub proof fn lemma_one_join_per_point(
    links: Seq<Join>,
    project: Project,
    dataset_id: String,
    hash: String,
    points: Seq<DatasetPoint>,
)
    ensures
        with_point_joins(links, project, dataset_id, hash, points).len() == links.len()
            + points.len(),
    decreases points.len(),
{
    if points.len() > 0 {
        lemma_one_join_per_point(links, project, dataset_id, hash, points.drop_last());
    }
}

/// The same point in two dataset versions, under whatever ids and hashes:
/// the point is stored once, and each version has its own join record.
pub proof fn lemma_same_point_in_two_versions(
    rows: Seq<Blob>,
    links: Seq<Join>,
    project: Project,
    first_id: String,
    first_hash: String,
    second_id: String,
    second_hash: String,
    point: DatasetPoint,
)
    requires
        distinct_hashes(rows),
    ensures
        with_points(with_points(rows, seq![point]), seq![point]) == with_blob(
            rows,
            point.hash,
            point.json,
        ),
        distinct_hashes(with_blob(rows, point.hash, point.json)),
        with_point_joins(
            with_point_joins(links, project, first_id, first_hash, seq![point]),
            project,
            second_id,
            second_hash,
            seq![point],
        ) == links.push(
            Join {
                project,
                owner: first_id,
                version: Some(first_hash),
                block: None,
                position: Position { block_idx: 0, input_idx: 0, map_idx: 0 },
                hash: point.hash,
            },
        ).push(
            Join {
                project,
                owner: second_id,
                version: Some(second_hash),
                block: None,
                position: Position { block_idx: 0, input_idx: 0, map_idx: 0 },
                hash: point.hash,
            },
        ),
{
    let one = seq![point];
    assert(one.drop_last() =~= Seq::<DatasetPoint>::empty());
    assert(one.last() == point);
    lemma_stored_twice_one_row(rows, point.hash, point.json, point.json);
    assert(with_points(rows, one.drop_last()) == rows);
    let once = with_points(rows, one);
    assert(once == with_blob(rows, point.hash, point.json));
    assert(with_points(once, one.drop_last()) == once);
    let l1 = with_point_joins(links, project, first_id, first_hash, one);
    assert(with_point_joins(links, project, first_id, first_hash, one.drop_last()) == links);
    assert(with_point_joins(l1, project, second_id, second_hash, one.drop_last()) == l1);
}

/// The dataset versions of all projects but one.
pub open spec fn datasets_without(ds: Seq<Dataset>, project: Project) -> Seq<Dataset> {
    ds.filter(|d: Dataset| d.project != project)
}

/// After the deletion of a project every remaining join record still
/// belongs to a remaining dataset version, and no version of the project is
/// left.
pub proof fn lemma_dataset_deletion_leaves_no_dangling(
    before: Seq<Dataset>,
    links: Seq<Join>,
    project: Project,
)
    requires
        joins_have_datasets(links, before),
    ensures
        joins_have_datasets(kept_joins(links, project, None), datasets_without(before, project)),
        forall|i: int|
            0 <= i < datasets_without(before, project).len() ==> (#[trigger] datasets_without(
                before,
                project,
            )[i]).project != project,
{
    broadcast use vstd::seq_lib::group_filter_ensures;

    let keep = |d: Dataset| d.project != project;
    lemma_kept_joins(links, project, None);
    let kj = kept_joins(links, project, None);
    let after = before.filter(keep);
    assert forall|k: int| 0 <= k < kj.len() implies (#[trigger] kj[k]).version is Some
        && has_dataset(after, kj[k].project, kj[k].owner@, (kj[k].version->0)@) by {
        let a = choose|a: int| 0 <= a < links.len() && links[a] == kj[k];
        assert(links[a].version is Some);
        let w = choose|w: int|
            0 <= w < before.len() && (#[trigger] before[w]).project == links[a].project
                && before[w].dataset_id@ == links[a].owner@ && before[w].hash@ == (
            links[a].version->0)@;
        assert(keep(before[w]));
        assert(after.contains(before[w]));
        let s = choose|s: int| 0 <= s < after.len() && after[s] == before[w];
        assert(after[s].project == kj[k].project && after[s].dataset_id@ == kj[k].owner@
            && after[s].hash@ == (kj[k].version->0)@);
    }
    assert forall|i: int| 0 <= i < after.len() implies (#[trigger] after[i]).project != project by {
        assert(keep(after[i]));
    }
}

/// The dataset versions together with their points.
pub struct DatasetStore {
    datasets: Vec<Dataset>,
    points: BlobStore,
}

impl DatasetStore {
    /// The registered versions, oldest first.
    pub closed spec fn datasets(&self) -> Seq<Dataset> {
        self.datasets@
    }

    /// The points and their join records.
    pub closed spec fn points(&self) -> BlobStore {
        self.points
    }

    pub open spec fn wf(&self) -> bool {
        &&& self.points().wf()
        &&& joins_have_datasets(self.points().links(), self.datasets())
    }

    pub fn new() -> (r: DatasetStore)
        ensures
            r.datasets() == Seq::<Dataset>::empty(),
            r.points().links() == Seq::<Join>::empty(),
            r.points().rows().len() == 0,
            r.wf(),
    {
        DatasetStore { datasets: Vec::new(), points: BlobStore::new() }
    }

    /// The number of stored points.
    pub fn point_count(&self) -> (r: usize)
        ensures
            r == self.points().rows().len(),
    {
        self.points.blob_count()
    }

    /// The number of join records from dataset versions to points.
    pub fn join_count(&self) -> (r: usize)
        ensures
            r == self.points().links().len(),
    {
        self.points.join_count()
    }

    /// Whether the project has this version of the dataset.
    fn has_version(&self, project: Project, dataset_id: &String, hash: &String) -> (r: bool)
        ensures
            r == has_dataset(self.datasets(), project, dataset_id@, hash@),
    {
        let mut i: usize = 0;
        while i < self.datasets.len()
            invariant
                i <= self.datasets@.len(),
                forall|k: int|
                    0 <= k < i ==> !((#[trigger] self.datasets@[k]).project == project
                        && self.datasets@[k].dataset_id@ == dataset_id@ && self.datasets@[k].hash@
                        == hash@),
            decreases self.datasets@.len() - i,
        {
            let d = &self.datasets[i];
            if d.project == project && d.dataset_id == *dataset_id && d.hash == *hash {
                return true;
            }
            i = i + 1;
        }
        false
    }

    /// Registers a version of a dataset at time `now`. A version that the
    /// project already has changes nothing. A new version gets one join
    /// record per point, in order; a point is stored unless a payload with
    /// its hash is stored already.
    pub fn register_dataset(
        &mut self,
        project: Project,
        dataset_id: &String,
        hash: &String,
        points: &Vec<DatasetPoint>,
        now: u64,
    )
        requires
            old(self).wf(),
        ensures
            final(self).wf(),
            final(self).datasets() == datasets_after(
                old(self).datasets(),
                (Dataset { project, dataset_id: *dataset_id, hash: *hash, created: now }),
            ),
            final(self).points().rows() == points_after(
                old(self).datasets(),
                old(self).points().rows(),
                project,
                dataset_id@,
                hash@,
                points@,
            ),
            final(self).points().links() == point_joins_after(
                old(self).datasets(),
                old(self).points().links(),
                project,
                *dataset_id,
                *hash,
                points@,
            ),
    {
        if self.has_version(project, dataset_id, hash) {
            return ;
        }
        let ghost before = self.datasets();
        self.datasets.push(
            Dataset { project, dataset_id: dataset_id.clone(), hash: hash.clone(), created: now },
        );
        proof {
            let after = self.datasets();
            let links = self.points().links();
            assert(after[before.len() as int].hash@ == hash@);
            assert(has_dataset(after, project, dataset_id@, hash@));
            assert forall|k: int| 0 <= k < links.len() implies (#[trigger] links[k]).version is Some
                && has_dataset(after, links[k].project, links[k].owner@, (links[k].version->0)@) by {
                let w = choose|w: int|
                    0 <= w < before.len() && (#[trigger] before[w]).project == links[k].project
                        && before[w].dataset_id@ == links[k].owner@ && before[w].hash@ == (
                    links[k].version->0)@;
                assert(after[w] == before[w]);
            }
        }
        let version = Some(hash.clone());
        let mut i: usize = 0;
        while i < points.len()
            invariant
                i <= points@.len(),
                self.wf(),
                version == Some(*hash),
                self.datasets() == before.push(
                    (Dataset { project, dataset_id: *dataset_id, hash: *hash, created: now }),
                ),
                has_dataset(self.datasets(), project, dataset_id@, hash@),
                self.points().rows() == with_points(old(self).points().rows(), points@.take(i as int)),
                self.points().links() == with_point_joins(
                    old(self).points().links(),
                    project,
                    *dataset_id,
                    *hash,
                    points@.take(i as int),
                ),
            decreases points@.len() - i,
        {
            proof {
                assert(points@.take(i + 1).drop_last() =~= points@.take(i as int));
            }
            let ghost prev = self.points().links();
            let position = Position { block_idx: i as u64, input_idx: 0, map_idx: 0 };
            self.points.put(
                project,
                dataset_id,
                &version,
                &None,
                position,
                &points[i].hash,
                &points[i].json,
            );
            proof {
                let links = self.points().links();
                assert forall|k: int| 0 <= k < links.len() implies (#[trigger] links[k]).version is Some
                    && has_dataset(
                    self.datasets(),
                    links[k].project,
                    links[k].owner@,
                    (links[k].version->0)@,
                ) by {
                    if k < prev.len() {
                        assert(links[k] == prev[k]);
                    }
                }
            }
            i = i + 1;
        }
        proof {
            assert(points@.take(i as int) =~= points@);
        }
    }

    /// The dataset versions of the project, in the order of their
    /// registration.
    pub fn list_datasets(&self, project: Project) -> (r: Vec<Dataset>)
        ensures
            r@ == datasets_of(self.datasets(), project),
    {
        let mut all: Vec<Dataset> = Vec::new();
        let mut i: usize = 0;
        while i < self.datasets.len()
            invariant
                i <= self.datasets@.len(),
                all@ == datasets_of(self.datasets@.take(i as int), project),
            decreases self.datasets@.len() - i,
        {
            proof {
                assert(self.datasets@.take(i + 1).drop_last() =~= self.datasets@.take(i as int));
            }
            let d = &self.datasets[i];
            if d.project == project {
                all.push(
                    Dataset {
                        project: d.project,
                        dataset_id: d.dataset_id.clone(),
                        hash: d.hash.clone(),
                        created: d.created,
                    },
                );
            }
            i = i + 1;
        }
        proof {
            assert(self.datasets@.take(i as int) =~= self.datasets@);
        }
        all
    }

    /// The hash of the youngest version of the dataset.
    pub fn latest_dataset_hash(&self, project: Project, dataset_id: &String) -> (r: Option<String>)
        ensures
            r is Some <==> latest_dataset(self.datasets(), project, dataset_id@) is Some,
            r is Some ==> r->0 == self.datasets()[latest_dataset(
                self.datasets(),
                project,
                dataset_id@,
            )->0].hash,
    {
        let n: usize = self.datasets.len();
        let mut i: usize = n;
        proof {
            assert(self.datasets@.take(n as int) =~= self.datasets@);
        }
        while i > 0 && !(self.datasets[i - 1].project == project && self.datasets[i - 1].dataset_id
            == *dataset_id)
            invariant
                i <= n,
                n == self.datasets@.len(),
                latest_dataset(self.datasets@, project, dataset_id@) == latest_dataset(
                    self.datasets@.take(i as int),
                    project,
                    dataset_id@,
                ),
            decreases i,
        {
            proof {
                assert(self.datasets@.take(i as int).drop_last() =~= self.datasets@.take(i - 1));
            }
            i = i - 1;
        }
        if i > 0 {
            Some(self.datasets[i - 1].hash.clone())
        } else {
            None
        }
    }

    /// The points of a dataset version, each with its index, in the order
    /// in which they were registered; `None` where the project has no such
    /// version.
    pub fn load_dataset(&self, project: Project, dataset_id: &String, hash: &String) -> (r: Option<
        Vec<(Position, String)>,
    >)
        requires
            self.wf(),
        ensures
            r is Some <==> has_dataset(self.datasets(), project, dataset_id@, hash@),
            r is Some ==> (r->0)@ == owned(
                self.points().links(),
                self.points().rows(),
                project,
                dataset_id@,
                Some(hash@),
            ),
    {
        if self.has_version(project, dataset_id, hash) {
            let version = Some(hash.clone());
            Some(self.points.load(project, dataset_id, &version))
        } else {
            None
        }
    }

    /// Deletes every dataset version of the project, their join records,
    /// and each point that no remaining join record refers to.
    pub fn delete_project(&mut self, project: Project)
        requires
            old(self).wf(),
        ensures
            final(self).wf(),
            final(self).datasets() == datasets_without(old(self).datasets(), project),
            final(self).points().links() == kept_joins(old(self).points().links(), project, None),
            final(self).points().rows() == swept(
                old(self).points().rows(),
                final(self).points().links(),
            ),
    {
        let ghost keep = |d: Dataset| d.project != project;
        let ghost before = self.datasets();
        let ghost links = self.points().links();
        let mut out: Vec<Dataset> = Vec::new();
        let mut i: usize = 0;
        while i < self.datasets.len()
            invariant
                i <= self.datasets@.len(),
                self.datasets@ == before,
                keep == (|d: Dataset| d.project != project),
                out@ == self.datasets@.take(i as int).filter(keep),
            decreases self.datasets@.len() - i,
        {
            proof {
                reveal(Seq::filter);
                assert(self.datasets@.take(i + 1).drop_last() =~= self.datasets@.take(i as int));
            }
            let d = &self.datasets[i];
            if d.project != project {
                out.push(
                    Dataset {
                        project: d.project,
                        dataset_id: d.dataset_id.clone(),
                        hash: d.hash.clone(),
                        created: d.created,
                    },
                );
            }
            i = i + 1;
        }
        proof {
            assert(self.datasets@.take(i as int) =~= self.datasets@);
        }
        self.points.remove(project, &None);
        self.datasets = out;
        proof {
            lemma_dataset_deletion_leaves_no_dangling(before, links, project);
        }
    }
}

} // verus!
