//! Content history of one document. Every change of content adds a version
//! stamped with its creation time; the latest version is derived from the
//! stamps alone and never stored as a pointer.

use vstd::prelude::*;
use crate::page::{page_of, page_window};

verus! {

/// One version of a document's content.
#[derive(Clone, Debug, PartialEq, Eq)]
pub struct DocumentVersion {
    pub hash: String,
    pub created: u64,
}

impl DocumentVersion {
    pub fn duplicate(&self) -> (r: DocumentVersion)
        ensures
            r == *self,
    {
        DocumentVersion { hash: self.hash.clone(), created: self.created }
    }
}

/// Creation times never decrease along the history.
pub open spec fn ascending(vs: Seq<DocumentVersion>) -> bool {
    forall|i: int, j: int| 0 <= i <= j < vs.len() ==> vs[i].created <= vs[j].created
}

/// Where a version created at `now` goes: behind every version that is not
/// younger than it.
pub open spec fn insert_position(vs: Seq<DocumentVersion>, now: u64) -> int
    decreases vs.len(),
{
    if vs.len() == 0 {
        0
    } else if vs.last().created <= now {
        vs.len() as int
    } else {
        insert_position(vs.drop_last(), now)
    }
}

/// Whether an upsert of content with this hash adds a version: it does
/// unless the latest version already has the hash.
pub open spec fn adds_version(vs: Seq<DocumentVersion>, hash: Seq<char>) -> bool {
    vs.len() == 0 || vs.last().hash@ != hash
}

/// The history after an upsert of content with `hash` at time `now`.
pub open spec fn upserted(
    vs: Seq<DocumentVersion>,
    hash: String,
    now: u64,
) -> Seq<DocumentVersion> {
    if adds_version(vs, hash@) {
        vs.insert(insert_position(vs, now), DocumentVersion { hash, created: now })
    } else {
        vs
    }
}

/// The position of the youngest version with the hash, if any has it.
pub open spec fn youngest_with_hash(vs: Seq<DocumentVersion>, hash: Seq<char>) -> Option<int>
    decreases vs.len(),
{
    if vs.len() == 0 {
        None
    } else if vs.last().hash@ == hash {
        Some(vs.len() - 1)
    } else {
        youngest_with_hash(vs.drop_last(), hash)
    }
}

/// What a listing ranges over: the whole history, oldest first, or, where
/// the caller names a hash, the youngest version with that hash alone.
pub open spec fn listed(vs: Seq<DocumentVersion>, known_hash: Option<Seq<char>>) -> Seq<
    DocumentVersion,
> {
    match known_hash {
        None => vs,
        Some(h) => match youngest_with_hash(vs, h) {
            Some(i) => seq![vs[i]],
            None => Seq::empty(),
        },
    }
}

/// The version that a load hands out: the latest where no hash is named,
/// else the youngest version with the hash.
pub open spec fn chosen_version(vs: Seq<DocumentVersion>, hash: Option<Seq<char>>) -> Option<
    DocumentVersion,
> {
    match hash {
        None => if vs.len() > 0 {
            Some(vs.last())
        } else {
            None
        },
        Some(h) => match youngest_with_hash(vs, h) {
            Some(i) => Some(vs[i]),
            None => None,
        },
    }
}

/// The insert position splits an ascending history at `now`.
pub proof fn lemma_insert_position(vs: Seq<DocumentVersion>, now: u64)
    requires
        ascending(vs),
    ensures
        0 <= insert_position(vs, now) <= vs.len(),
        forall|j: int| 0 <= j < insert_position(vs, now) ==> vs[j].created <= now,
        forall|j: int| insert_position(vs, now) <= j < vs.len() ==> vs[j].created > now,
    decreases vs.len(),
{
    if vs.len() > 0 {
        if vs.last().created <= now {
            assert forall|j: int| 0 <= j < vs.len() implies vs[j].created <= now by {
                assert(vs[j].created <= vs[vs.len() - 1].created);
            }
        } else {
            let head = vs.drop_last();
            assert(ascending(head)) by {
                assert forall|i: int, j: int| 0 <= i <= j < head.len() implies head[i].created
                    <= head[j].created by {
                    assert(vs[i].created <= vs[j].created);
                }
            }
            lemma_insert_position(head, now);
            assert forall|j: int| 0 <= j < insert_position(vs, now) implies vs[j].created <= now by {
                assert(head[j] == vs[j]);
            }
            assert forall|j: int| insert_position(vs, now) <= j < vs.len() implies vs[j].created
                > now by {
                if j < head.len() {
                    assert(head[j] == vs[j]);
                }
            }
        }
    }
}

/// An upsert keeps the history ascending.
pub proof fn lemma_upserted_ascending(vs: Seq<DocumentVersion>, hash: String, now: u64)
    requires
        ascending(vs),
    ensures
        ascending(upserted(vs, hash, now)),
{
    lemma_insert_position(vs, now);
    let p = insert_position(vs, now);
    let out = upserted(vs, hash, now);
    if adds_version(vs, hash@) {
        assert forall|i: int, j: int| 0 <= i <= j < out.len() implies out[i].created
            <= out[j].created by {
            if i < p && j > p {
                assert(vs[i].created <= vs[j - 1].created);
            } else if i < p && j < p {
                assert(vs[i].created <= vs[j].created);
            } else if i > p {
                assert(vs[i - 1].created <= vs[j - 1].created);
            }
        }
    }
}

/// A position that `youngest_with_hash` gives holds the hash, and no
/// younger version does.
pub proof fn lemma_youngest_with_hash(vs: Seq<DocumentVersion>, hash: Seq<char>)
    ensures
        match youngest_with_hash(vs, hash) {
            Some(i) => 0 <= i < vs.len() && vs[i].hash@ == hash && forall|j: int|
                i < j < vs.len() ==> vs[j].hash@ != hash,
            None => forall|j: int| 0 <= j < vs.len() ==> vs[j].hash@ != hash,
        },
    decreases vs.len(),
{
    if vs.len() > 0 && vs.last().hash@ != hash {
        let head = vs.drop_last();
        lemma_youngest_with_hash(head, hash);
        match youngest_with_hash(head, hash) {
            Some(i) => {
                assert(head[i] == vs[i]);
                assert forall|j: int| i < j < vs.len() implies vs[j].hash@ != hash by {
                    if j < head.len() {
                        assert(head[j] == vs[j]);
                    }
                }
            },
            None => {
                assert forall|j: int| 0 <= j < vs.len() implies vs[j].hash@ != hash by {
                    if j < head.len() {
                        assert(head[j] == vs[j]);
                    }
                }
            },
        }
    }
}

/// Content `a` at time `ta`, then different content `b` at a time `tb` not
/// before `ta`, on a document without history: the history is `a` then `b`,
/// ascending; the latest version is `b`; and a listing that names the hash of
/// `a` gives the version `a` alone.
pub proof fn lemma_two_contents_two_versions(a: String, ta: u64, b: String, tb: u64)
    requires
        a@ != b@,
        ta <= tb,
    ensures
        upserted(upserted(Seq::empty(), a, ta), b, tb) == seq![
            (DocumentVersion { hash: a, created: ta }),
            (DocumentVersion { hash: b, created: tb }),
        ],
        ascending(upserted(upserted(Seq::empty(), a, ta), b, tb)),
        upserted(upserted(Seq::empty(), a, ta), b, tb).last() == (DocumentVersion {
            hash: b,
            created: tb,
        }),
        listed(upserted(upserted(Seq::empty(), a, ta), b, tb), Some(a@)) == seq![
            (DocumentVersion { hash: a, created: ta }),
        ],
{
    let va = DocumentVersion { hash: a, created: ta };
    let vb = DocumentVersion { hash: b, created: tb };
    let e = Seq::<DocumentVersion>::empty();
    let one = upserted(e, a, ta);
    assert(insert_position(e, ta) == 0);
    assert(one =~= seq![va]);
    assert(one.last() == va);
    assert(insert_position(one, tb) == 1);
    let two = upserted(one, b, tb);
    assert(two =~= seq![va, vb]);
    assert(two.drop_last() =~= one);
    assert(youngest_with_hash(two, a@) == youngest_with_hash(one, a@));
    assert(youngest_with_hash(one, a@) == Some(0int));
}

/// An upsert of the content that the latest version already has changes
/// nothing in the history.
pub proof fn lemma_same_content_no_version(vs: Seq<DocumentVersion>, hash: String, now: u64)
    requires
        vs.len() > 0,
        vs.last().hash@ == hash@,
    ensures
        upserted(vs, hash, now) == vs,
{
}

/// The history of one document.
pub struct VersionHistory {
    versions: Vec<DocumentVersion>,
}

impl VersionHistory {
    /// The versions, oldest first.
    pub closed spec fn view(&self) -> Seq<DocumentVersion> {
        self.versions@
    }

    pub open spec fn wf(&self) -> bool {
        ascending(self@)
    }

    pub fn new() -> (r: VersionHistory)
        ensures
            r@ == Seq::<DocumentVersion>::empty(),
            r.wf(),
    {
        VersionHistory { versions: Vec::new() }
    }

    /// A copy with the same versions.
    pub fn duplicate(&self) -> (r: VersionHistory)
        ensures
            r@ == self@,
    {
        let mut out: Vec<DocumentVersion> = Vec::new();
        let mut k: usize = 0;
        while k < self.versions.len()
            invariant
                k <= self.versions@.len(),
                out@ == self.versions@.take(k as int),
            decreases self.versions@.len() - k,
        {
            out.push(self.versions[k].duplicate());
            proof {
                assert(out@ =~= self.versions@.take(k + 1));
            }
            k = k + 1;
        }
        proof {
            assert(out@ =~= self.versions@);
        }
        VersionHistory { versions: out }
    }

    /// Records content with `hash` seen at time `now`. Returns whether a
    /// version was added.
    pub fn upsert(&mut self, hash: &String, now: u64) -> (added: bool)
        requires
            old(self).wf(),
        ensures
            final(self).wf(),
            added == adds_version(old(self)@, hash@),
            final(self)@ == upserted(old(self)@, *hash, now),
    {
        let n: usize = self.versions.len();
        if n > 0 && self.versions[n - 1].hash == *hash {
            return false;
        }
        proof {
            lemma_upserted_ascending(self@, *hash, now);
            lemma_insert_position(self@, now);
            assert(self.versions@.take(n as int) =~= self.versions@);
        }
        let mut i: usize = n;
        while i > 0 && self.versions[i - 1].created > now
            invariant
                i <= n,
                n == self.versions@.len(),
                insert_position(self.versions@, now) == insert_position(
                    self.versions@.take(i as int),
                    now,
                ),
            decreases i,
        {
            proof {
                assert(self.versions@.take(i as int).drop_last() =~= self.versions@.take(i - 1));
            }
            i = i - 1;
        }
        self.versions.insert(i, DocumentVersion { hash: hash.clone(), created: now });
        true
    }

    /// The version with the greatest creation time, if there is any.
    pub fn latest(&self) -> (r: Option<DocumentVersion>)
        requires
            self.wf(),
        ensures
            r is Some <==> self@.len() > 0,
            r is Some ==> r->0 == self@.last(),
            r is Some ==> forall|i: int| 0 <= i < self@.len() ==> self@[i].created <= (r->0).created,
    {
        let n: usize = self.versions.len();
        if n == 0 {
            None
        } else {
            Some(self.versions[n - 1].duplicate())
        }
    }

    /// The latest version where no hash is named, else the youngest version
    /// with the hash.
    pub fn choose_version(&self, hash: &Option<String>) -> (r: Option<DocumentVersion>)
        ensures
            r == chosen_version(self@, option_view(*hash)),
    {
        match hash {
            None => {
                let n: usize = self.versions.len();
                if n == 0 {
                    None
                } else {
                    Some(self.versions[n - 1].duplicate())
                }
            },
            Some(_) => {
                let (mut found, total) = self.list(None, hash);
                proof {
                    let l = listed(self@, option_view(*hash));
                    assert(page_of(l, None) =~= l);
                }
                found.pop()
            },
        }
    }

    /// One page of the listing, and the length of the whole listing. Without
    /// `known_hash` the listing is the history, oldest first; with it, the
    /// youngest version with that hash alone.
    pub fn list(&self, limit_offset: Option<(usize, usize)>, known_hash: &Option<String>) -> (r: (
        Vec<DocumentVersion>,
        usize,
    ))
        ensures
            r.0@ == page_of(listed(self@, option_view(*known_hash)), limit_offset),
            r.1 == listed(self@, option_view(*known_hash)).len(),
    {
        let mut all: Vec<DocumentVersion> = Vec::new();
        match known_hash {
            None => {
                let mut k: usize = 0;
                while k < self.versions.len()
                    invariant
                        k <= self.versions@.len(),
                        all@ == self.versions@.take(k as int),
                    decreases self.versions@.len() - k,
                {
                    all.push(self.versions[k].duplicate());
                    proof {
                        assert(all@ =~= self.versions@.take(k + 1));
                    }
                    k = k + 1;
                }
                proof {
                    assert(all@ =~= self.versions@);
                }
            },
            Some(h) => {
                let n: usize = self.versions.len();
                let mut i: usize = n;
                proof {
                    assert(self.versions@.take(n as int) =~= self.versions@);
                }
                while i > 0 && self.versions[i - 1].hash != *h
                    invariant
                        i <= n,
                        n == self.versions@.len(),
                        youngest_with_hash(self.versions@, h@) == youngest_with_hash(
                            self.versions@.take(i as int),
                            h@,
                        ),
                    decreases i,
                {
                    proof {
                        assert(self.versions@.take(i as int).drop_last() =~= self.versions@.take(
                            i - 1,
                        ));
                    }
                    i = i - 1;
                }
                if i > 0 {
                    all.push(self.versions[i - 1].duplicate());
                    proof {
                        assert(all@ =~= seq![self.versions@[i - 1]]);
                    }
                } else {
                    proof {
                        assert(all@ =~= Seq::<DocumentVersion>::empty());
                    }
                }
            },
        }
        let total: usize = all.len();
        let (start, end) = page_window(total, limit_offset);
        let mut out: Vec<DocumentVersion> = Vec::new();
        let mut j: usize = start;
        while j < end
            invariant
                start <= j <= end <= all@.len(),
                out@ == all@.subrange(start as int, j as int),
            decreases end - j,
        {
            out.push(all[j].duplicate());
            proof {
                assert(out@ =~= all@.subrange(start as int, j + 1));
            }
            j = j + 1;
        }
        (out, total)
    }
}

/// The characters of an optional string.
pub open spec fn option_view(s: Option<String>) -> Option<Seq<char>> {
    match s {
        None => None,
        Some(h) => Some(h@),
    }
}

} // verus!
