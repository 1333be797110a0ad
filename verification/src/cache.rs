//! Append-only response caches. One table serves the four kinds of request;
//! a key is a project, a kind and the canonical hash of the request. Entries
//! are never merged, deduplicated or evicted.

use vstd::prelude::*;
use crate::project::Project;

verus! {

/// The four independent caches.
#[derive(Clone, Copy, Debug, PartialEq, Eq, Structural)]
pub enum CacheKind {
    Text,
    Chat,
    Embedding,
    Http,
}

/// One stored response.
#[derive(Clone, Debug, PartialEq, Eq)]
pub struct CacheEntry {
    pub project: Project,
    pub kind: CacheKind,
    pub hash: String,
    pub response: String,
}

/// Whether `e` was stored under the key `(project, kind, hash)`.
pub open spec fn has_key(
    e: CacheEntry,
    project: Project,
    kind: CacheKind,
    hash: Seq<char>,
) -> bool {
    e.project == project && e.kind == kind && e.hash@ == hash
}

/// Every response stored under a key, oldest first.
pub open spec fn responses_for(
    entries: Seq<CacheEntry>,
    project: Project,
    kind: CacheKind,
    hash: Seq<char>,
) -> Seq<String>
    decreases entries.len(),
{
    if entries.len() == 0 {
        Seq::empty()
    } else {
        let rest = responses_for(entries.drop_last(), project, kind, hash);
        if has_key(entries.last(), project, kind, hash) {
            rest.push(entries.last().response)
        } else {
            rest
        }
    }
}

/// The cache table.
pub struct Cache {
    pub entries: Vec<CacheEntry>,
}

impl Cache {
    pub fn new() -> (r: Cache)
        ensures
            r.entries@ == Seq::<CacheEntry>::empty(),
    {
        Cache { entries: Vec::new() }
    }

    /// Appends a response under the key. Always succeeds and never looks at
    /// what the key already holds.
    pub fn store(&mut self, project: Project, kind: CacheKind, hash: &String, response: &String)
        ensures
            final(self).entries@ == old(self).entries@.push(
                (CacheEntry { project, kind, hash: *hash, response: *response }),
            ),
    {
        self.entries.push(CacheEntry { project, kind, hash: hash.clone(), response: response.clone() });
    }

    /// Every response stored under the key, oldest first.
    pub fn get(&self, project: Project, kind: CacheKind, hash: &String) -> (r: Vec<String>)
        ensures
            r@ == responses_for(self.entries@, project, kind, hash@),
    {
        let mut out: Vec<String> = Vec::new();
        let mut i: usize = 0;
        while i < self.entries.len()
            invariant
                i <= self.entries@.len(),
                out@ == responses_for(self.entries@.take(i as int), project, kind, hash@),
            decreases self.entries@.len() - i,
        {
            proof {
                assert(self.entries@.take(i + 1).drop_last() =~= self.entries@.take(i as int));
            }
            let e = &self.entries[i];
            if e.project == project && e.kind == kind && e.hash == *hash {
                out.push(e.response.clone());
            }
            i = i + 1;
        }
        proof {
            assert(self.entries@.take(i as int) =~= self.entries@);
        }
        out
    }

    /// Removes every entry of a project.
    pub fn delete_project(&mut self, project: Project)
        ensures
            final(self).entries@ == old(self).entries@.filter(|e: CacheEntry| e.project != project),
    {
        let ghost keep = |e: CacheEntry| e.project != project;
        let mut out: Vec<CacheEntry> = Vec::new();
        let mut i: usize = 0;
        while i < self.entries.len()
            invariant
                i <= self.entries@.len(),
                self.entries@ == old(self).entries@,
                keep == (|e: CacheEntry| e.project != project),
                out@ == self.entries@.take(i as int).filter(keep),
            decreases self.entries@.len() - i,
        {
            proof {
                reveal(Seq::filter);
                assert(self.entries@.take(i + 1).drop_last() =~= self.entries@.take(i as int));
            }
            let e = &self.entries[i];
            if e.project != project {
                out.push(CacheEntry { project: e.project, kind: e.kind, hash: e.hash.clone(), response: e.response.clone() });
            }
            i = i + 1;
        }
        proof {
            assert(self.entries@.take(i as int) =~= self.entries@);
        }
        self.entries = out;
    }
}

/// Storing appends to what the key held and leaves every other key as it was.
pub proof fn lemma_store_appends(
    entries: Seq<CacheEntry>,
    e: CacheEntry,
    project: Project,
    kind: CacheKind,
    hash: Seq<char>,
)
    ensures
        responses_for(entries.push(e), project, kind, hash) == if has_key(e, project, kind, hash) {
            responses_for(entries, project, kind, hash).push(e.response)
        } else {
            responses_for(entries, project, kind, hash)
        },
{
    assert(entries.push(e).drop_last() =~= entries);
}

/// Two stores under one key, in whichever order they land, are both kept:
/// nothing is overwritten or merged, even when the two responses are equal.
pub proof fn lemma_two_stores_both_kept(
    entries: Seq<CacheEntry>,
    a: CacheEntry,
    b: CacheEntry,
    project: Project,
    kind: CacheKind,
    hash: Seq<char>,
)
    requires
        has_key(a, project, kind, hash),
        has_key(b, project, kind, hash),
    ensures
        responses_for(entries.push(a).push(b), project, kind, hash) == responses_for(
            entries,
            project,
            kind,
            hash,
        ).push(a.response).push(b.response),
        responses_for(entries.push(b).push(a), project, kind, hash) == responses_for(
            entries,
            project,
            kind,
            hash,
        ).push(b.response).push(a.response),
{
    lemma_store_appends(entries, a, project, kind, hash);
    lemma_store_appends(entries.push(a), b, project, kind, hash);
    lemma_store_appends(entries, b, project, kind, hash);
    lemma_store_appends(entries.push(b), a, project, kind, hash);
}

/// A project without entries has no response under any key.
pub proof fn lemma_no_entries_no_responses(
    entries: Seq<CacheEntry>,
    project: Project,
    kind: CacheKind,
    hash: Seq<char>,
)
    requires
        forall|i: int| 0 <= i < entries.len() ==> entries[i].project != project,
    ensures
        responses_for(entries, project, kind, hash) == Seq::<String>::empty(),
    decreases entries.len(),
{
    if entries.len() > 0 {
        let head = entries.drop_last();
        assert forall|i: int| 0 <= i < head.len() implies head[i].project != project by {
            assert(head[i] == entries[i]);
        }
        lemma_no_entries_no_responses(head, project, kind, hash);
        assert(entries[entries.len() - 1].project != project);
    }
}

} // verus!
