//! Specifications of a project: immutable texts keyed by their hash, kept as
//! an append-only history.

use vstd::prelude::*;
use crate::project::Project;

verus! {

/// One registered specification.
#[derive(Clone, Debug, PartialEq, Eq)]
pub struct Specification {
    pub project: Project,
    pub created: u64,
    pub hash: String,
    pub text: String,
}

/// The position of the project's youngest specification, if it has one.
pub open spec fn latest_spec(specs: Seq<Specification>, project: Project) -> Option<int>
    decreases specs.len(),
{
    if specs.len() == 0 {
        None
    } else if specs.last().project == project {
        Some(specs.len() - 1)
    } else {
        latest_spec(specs.drop_last(), project)
    }
}

/// The position of the project's youngest specification with the hash.
pub open spec fn spec_with_hash(
    specs: Seq<Specification>,
    project: Project,
    hash: Seq<char>,
) -> Option<
    int,
>
    decreases specs.len(),
{
    if specs.len() == 0 {
        None
    } else if specs.last().project == project && specs.last().hash@ == hash {
        Some(specs.len() - 1)
    } else {
        spec_with_hash(specs.drop_last(), project, hash)
    }
}

/// Whether registering the hash adds a row: it does unless the project's
/// youngest specification already has the hash.
pub open spec fn adds_spec(specs: Seq<Specification>, project: Project, hash: Seq<char>) -> bool {
    match latest_spec(specs, project) {
        None => true,
        Some(i) => specs[i].hash@ != hash,
    }
}

/// The history after registering a specification.
pub open spec fn registered(specs: Seq<Specification>, s: Specification) -> Seq<Specification> {
    if adds_spec(specs, s.project, s.hash@) {
        specs.push(s)
    } else {
        specs
    }
}

/// A position that `latest_spec` gives is in range and holds the project.
pub proof fn lemma_latest_spec(specs: Seq<Specification>, project: Project)
    ensures
        match latest_spec(specs, project) {
            Some(i) => 0 <= i < specs.len() && specs[i].project == project,
            None => forall|j: int| 0 <= j < specs.len() ==> specs[j].project != project,
        },
    decreases specs.len(),
{
    if specs.len() > 0 && specs.last().project != project {
        let head = specs.drop_last();
        lemma_latest_spec(head, project);
        match latest_spec(head, project) {
            Some(i) => {
                assert(head[i] == specs[i]);
            },
            None => {
                assert forall|j: int| 0 <= j < specs.len() implies specs[j].project != project by {
                    if j < head.len() {
                        assert(head[j] == specs[j]);
                    }
                }
            },
        }
    }
}

/// A position that `spec_with_hash` gives is in range and holds the key.
pub proof fn lemma_spec_with_hash(specs: Seq<Specification>, project: Project, hash: Seq<char>)
    ensures
        match spec_with_hash(specs, project, hash) {
            Some(i) => 0 <= i < specs.len() && specs[i].project == project && specs[i].hash@
                == hash,
            None => forall|j: int|
                0 <= j < specs.len() ==> !(specs[j].project == project && specs[j].hash@ == hash),
        },
    decreases specs.len(),
{
    if specs.len() > 0 && !(specs.last().project == project && specs.last().hash@ == hash) {
        let head = specs.drop_last();
        lemma_spec_with_hash(head, project, hash);
        match spec_with_hash(head, project, hash) {
            Some(i) => {
                assert(head[i] == specs[i]);
            },
            None => {
                assert forall|j: int| 0 <= j < specs.len() implies !(specs[j].project == project
                    && specs[j].hash@ == hash) by {
                    if j < head.len() {
                        assert(head[j] == specs[j]);
                    }
                }
            },
        }
    }
}

/// The specifications of all projects.
pub struct SpecificationLog {
    pub rows: Vec<Specification>,
}

impl SpecificationLog {
    pub fn new() -> (r: SpecificationLog)
        ensures
            r.rows@ == Seq::<Specification>::empty(),
    {
        SpecificationLog { rows: Vec::new() }
    }

    fn latest_index(&self, project: Project) -> (r: Option<usize>)
        ensures
            r is Some <==> latest_spec(self.rows@, project) is Some,
            r is Some ==> r->0 == latest_spec(self.rows@, project)->0 && r->0 < self.rows@.len(),
    {
        let n: usize = self.rows.len();
        let mut i: usize = n;
        proof {
            assert(self.rows@.take(n as int) =~= self.rows@);
        }
        while i > 0 && self.rows[i - 1].project != project
            invariant
                i <= n,
                n == self.rows@.len(),
                latest_spec(self.rows@, project) == latest_spec(self.rows@.take(i as int), project),
            decreases i,
        {
            proof {
                assert(self.rows@.take(i as int).drop_last() =~= self.rows@.take(i - 1));
            }
            i = i - 1;
        }
        if i > 0 {
            Some(i - 1)
        } else {
            None
        }
    }

    /// The hash of the project's youngest specification.
    pub fn latest_hash(&self, project: Project) -> (r: Option<String>)
        ensures
            r is Some <==> latest_spec(self.rows@, project) is Some,
            r is Some ==> r->0 == self.rows@[latest_spec(self.rows@, project)->0].hash,
    {
        match self.latest_index(project) {
            Some(i) => Some(self.rows[i].hash.clone()),
            None => None,
        }
    }

    /// Registers a specification at time `now`. Nothing is added where the
    /// project's youngest specification already has the hash.
    pub fn register(&mut self, project: Project, hash: &String, text: &String, now: u64)
        ensures
            final(self).rows@ == registered(
                old(self).rows@,
                (Specification { project, created: now, hash: *hash, text: *text }),
            ),
    {
        let adds = match self.latest_index(project) {
            Some(i) => self.rows[i].hash != *hash,
            None => true,
        };
        if adds {
            self.rows.push(
                Specification { project, created: now, hash: hash.clone(), text: text.clone() },
            );
        }
    }

    /// Creation time and text of the project's youngest specification with
    /// the hash.
    pub fn load(&self, project: Project, hash: &String) -> (r: Option<(u64, String)>)
        ensures
            r is Some <==> spec_with_hash(self.rows@, project, hash@) is Some,
            r is Some ==> (r->0).0 == self.rows@[spec_with_hash(
                self.rows@,
                project,
                hash@,
            )->0].created,
            r is Some
                ==> (r->0).1 == self.rows@[spec_with_hash(self.rows@, project, hash@)->0].text,
    {
        let n: usize = self.rows.len();
        let mut i: usize = n;
        proof {
            assert(self.rows@.take(n as int) =~= self.rows@);
        }
        while i > 0 && !(self.rows[i - 1].project == project && self.rows[i - 1].hash == *hash)
            invariant
                i <= n,
                n == self.rows@.len(),
                spec_with_hash(self.rows@, project, hash@) == spec_with_hash(
                    self.rows@.take(i as int),
                    project,
                    hash@,
                ),
            decreases i,
        {
            proof {
                assert(self.rows@.take(i as int).drop_last() =~= self.rows@.take(i - 1));
            }
            i = i - 1;
        }
        if i > 0 {
            Some((self.rows[i - 1].created, self.rows[i - 1].text.clone()))
        } else {
            None
        }
    }

    /// Removes every specification of a project.
    pub fn delete_project(&mut self, project: Project)
        ensures
            final(self).rows@ == old(self).rows@.filter(|s: Specification| s.project != project),
    {
        let ghost keep = |s: Specification| s.project != project;
        let mut out: Vec<Specification> = Vec::new();
        let mut i: usize = 0;
        while i < self.rows.len()
            invariant
                i <= self.rows@.len(),
                self.rows@ == old(self).rows@,
                keep == (|s: Specification| s.project != project),
                out@ == self.rows@.take(i as int).filter(keep),
            decreases self.rows@.len() - i,
        {
            proof {
                reveal(Seq::filter);
                assert(self.rows@.take(i + 1).drop_last() =~= self.rows@.take(i as int));
            }
            let s = &self.rows[i];
            if s.project != project {
                out.push(
                    Specification {
                        project: s.project,
                        created: s.created,
                        hash: s.hash.clone(),
                        text: s.text.clone(),
                    },
                );
            }
            i = i + 1;
        }
        proof {
            assert(self.rows@.take(i as int) =~= self.rows@);
        }
        self.rows = out;
    }
}

} // verus!
