//! The table of documents, with the operations on one document and the
//! deletions that take a document, a data source or a project.

use vstd::prelude::*;
use crate::documents::{
    doc_index, documents_sound, entries, has_doc, is_doc, kept_docs, lemma_kept_docs,
    lemma_update_sound, listed_docs, upserted_docs, views, Document, DocumentView,
};
use crate::page::{page_of, page_window, paginate};
use crate::search::{admits, found_ids, texts, SearchFilter};
use crate::project::{Project, StoreError};
use crate::tags::{updated_tags, TagSet};
use crate::versions::{
    adds_version, chosen_version, listed, option_view, DocumentVersion, VersionHistory,
};

verus! {

/// In sound documents a key stands at one position only.
pub proof fn lemma_doc_index(docs: Seq<DocumentView>, i: int, project: Project, ds: Seq<char>, id: Seq<char>)
    requires
        documents_sound(docs),
        0 <= i < docs.len(),
        is_doc(docs[i], project, ds, id),
    ensures
        has_doc(docs, project, ds, id),
        doc_index(docs, project, ds, id) == i,
{
    let k = doc_index(docs, project, ds, id);
    if k < i {
        assert(!is_doc(docs[k], docs[i].project, docs[i].data_source_id, docs[i].document_id));
    } else if i < k {
        assert(!is_doc(docs[i], docs[k].project, docs[k].data_source_id, docs[k].document_id));
    }
}

fn copy_strings(v: &Vec<String>) -> (r: Vec<String>)
    ensures
        r@ == v@,
{
    let r = crate::page::paginate(v, None).0;
    proof {
        assert(page_of(v@, None) =~= v@);
    }
    r
}

fn copy_document(d: &Document) -> (r: Document)
    ensures
        r@ == d@,
{
    Document {
        project: d.project,
        data_source_id: d.data_source_id.clone(),
        document_id: d.document_id.clone(),
        versions: d.versions.duplicate(),
        tags: d.tags.duplicate(),
        parents: copy_strings(&d.parents),
        status: d.status.clone(),
    }
}

/// The documents of all data sources.
pub struct DocumentStore {
    docs: Vec<Document>,
}

impl DocumentStore {
    /// What the documents hold, in the order of their creation.
    pub closed spec fn view(&self) -> Seq<DocumentView> {
        views(self.docs@)
    }

    pub open spec fn wf(&self) -> bool {
        documents_sound(self@)
    }

    pub fn new() -> (r: DocumentStore)
        ensures
            r@ == Seq::<DocumentView>::empty(),
            r.wf(),
    {
        let r = DocumentStore { docs: Vec::new() };
        proof {
            assert(r@ =~= Seq::<DocumentView>::empty());
        }
        r
    }

    /// The position of the document with the key, if it is stored.
    pub fn find_document(
        &self,
        project: Project,
        data_source_id: &String,
        document_id: &String,
    ) -> (r:
        Option<usize>)
        ensures
            r is Some <==> has_doc(self@, project, data_source_id@, document_id@),
            r is Some ==> r->0 < self@.len() && is_doc(
                self@[r->0 as int],
                project,
                data_source_id@,
                document_id@,
            ),
    {
        let mut i: usize = 0;
        while i < self.docs.len()
            invariant
                i <= self.docs@.len(),
                forall|k: int|
                    0 <= k < i ==> !is_doc(
                        #[trigger] views(self.docs@)[k],
                        project,
                        data_source_id@,
                        document_id@,
                    ),
            decreases self.docs@.len() - i,
        {
            let d = &self.docs[i];
            if d.project == project && d.data_source_id == *data_source_id && d.document_id
                == *document_id {
                assert(is_doc(views(self.docs@)[i as int], project, data_source_id@, document_id@));
                return Some(i);
            }
            i = i + 1;
        }
        None
    }

    /// Writes a document: its content at time `now`, its tags, its parents
    /// and its status. Returns whether the content made a new version.
    pub fn upsert_document(
        &mut self,
        project: Project,
        data_source_id: &String,
        document_id: &String,
        hash: &String,
        now: u64,
        tags: &Vec<String>,
        parents: &Vec<String>,
        status: &String,
    ) -> (added: bool)
        requires
            old(self).wf(),
        ensures
            final(self).wf(),
            final(self)@ == upserted_docs(
                old(self)@,
                project,
                data_source_id@,
                document_id@,
                *hash,
                now,
                tags@,
                parents@,
                status@,
            ),
            added == if has_doc(old(self)@, project, data_source_id@, document_id@) {
                adds_version(
                    old(self)@[doc_index(old(self)@, project, data_source_id@, document_id@)].versions,
                    hash@,
                )
            } else {
                true
            },
    {
        let none: Vec<String> = Vec::new();
        let mut tag_set = TagSet::new();
        tag_set.update(tags, &none);
        let ghost before = self@;
        match self.find_document(project, data_source_id, document_id) {
            Some(i) => {
                let mut d = self.docs.remove(i);
                let added = d.versions.upsert(hash, now);
                d.tags = tag_set;
                d.parents = copy_strings(parents);
                d.status = status.clone();
                proof {
                    lemma_doc_index(before, i as int, project, data_source_id@, document_id@);
                    lemma_update_sound(before, i as int, d@);
                }
                self.docs.insert(i, d);
                proof {
                    assert(self@ =~= before.update(i as int, d@));
                }
                added
            },
            None => {
                let mut versions = VersionHistory::new();
                versions.upsert(hash, now);
                let d = Document {
                    project,
                    data_source_id: data_source_id.clone(),
                    document_id: document_id.clone(),
                    versions,
                    tags: tag_set,
                    parents: copy_strings(parents),
                    status: status.clone(),
                };
                self.docs.push(d);
                proof {
                    let after = self@;
                    assert(after =~= before.push(d@));
                    assert forall|a: int, b: int| 0 <= a < b < after.len() implies !is_doc(
                        #[trigger] after[a],
                        (#[trigger] after[b]).project,
                        after[b].data_source_id,
                        after[b].document_id,
                    ) by {
                        if b < before.len() {
                            assert(!is_doc(
                                before[a],
                                before[b].project,
                                before[b].data_source_id,
                                before[b].document_id,
                            ));
                        } else {
                            assert(!is_doc(before[a], project, data_source_id@, document_id@));
                        }
                    }
                    assert forall|a: int| 0 <= a < after.len() implies crate::versions::ascending(
                        (#[trigger] after[a]).versions,
                    ) && crate::tags::distinct_tags(after[a].tags) by {
                        if a < before.len() {
                            assert(after[a] == before[a]);
                        }
                    }
                }
                true
            },
        }
    }

    /// Adds and removes tags of a document and returns the resulting set.
    /// The content history is not touched. An absent document is refused.
    pub fn update_tags(
        &mut self,
        project: Project,
        data_source_id: &String,
        document_id: &String,
        add_tags: &Vec<String>,
        remove_tags: &Vec<String>,
    ) -> (r: Result<Vec<String>, StoreError>)
        requires
            old(self).wf(),
        ensures
            final(self).wf(),
            !has_doc(old(self)@, project, data_source_id@, document_id@) ==> r is Err && r->Err_0
                == StoreError::InvalidInput && final(self)@ == old(self)@,
            has_doc(old(self)@, project, data_source_id@, document_id@) ==> {
                let i = doc_index(old(self)@, project, data_source_id@, document_id@);
                &&& r is Ok
                &&& (r->Ok_0)@ == updated_tags(old(self)@[i].tags, add_tags@, remove_tags@)
                &&& final(self)@ == old(self)@.update(
                    i,
                    (DocumentView { tags: (r->Ok_0)@, ..old(self)@[i] }),
                )
            },
    {
        let ghost before = self@;
        match self.find_document(project, data_source_id, document_id) {
            Some(i) => {
                let mut d = self.docs.remove(i);
                let tags = d.tags.update(add_tags, remove_tags);
                proof {
                    lemma_doc_index(before, i as int, project, data_source_id@, document_id@);
                    lemma_update_sound(before, i as int, d@);
                }
                self.docs.insert(i, d);
                proof {
                    assert(self@ =~= before.update(i as int, d@));
                }
                Ok(tags)
            },
            None => Err(StoreError::InvalidInput),
        }
    }

    /// Replaces the parents of a document. An absent document is refused.
    pub fn update_parents(
        &mut self,
        project: Project,
        data_source_id: &String,
        document_id: &String,
        parents: &Vec<String>,
    ) -> (r: Result<(), StoreError>)
        requires
            old(self).wf(),
        ensures
            final(self).wf(),
            !has_doc(old(self)@, project, data_source_id@, document_id@) ==> r is Err && r->Err_0
                == StoreError::InvalidInput && final(self)@ == old(self)@,
            has_doc(old(self)@, project, data_source_id@, document_id@) ==> {
                let i = doc_index(old(self)@, project, data_source_id@, document_id@);
                &&& r is Ok
                &&& final(self)@ == old(self)@.update(
                    i,
                    (DocumentView { parents: parents@, ..old(self)@[i] }),
                )
            },
    {
        let ghost before = self@;
        match self.find_document(project, data_source_id, document_id) {
            Some(i) => {
                let mut d = self.docs.remove(i);
                d.parents = copy_strings(parents);
                proof {
                    lemma_doc_index(before, i as int, project, data_source_id@, document_id@);
                    lemma_update_sound(before, i as int, d@);
                }
                self.docs.insert(i, d);
                proof {
                    assert(self@ =~= before.update(i as int, d@));
                }
                Ok(())
            },
            None => Err(StoreError::InvalidInput),
        }
    }

    /// A version of a document with the document's tags, parents and
    /// status: the latest version where `version_hash` is `None`, else the
    /// youngest version with that hash. `None` where the document or the
    /// version is absent.
    pub fn load_document(
        &self,
        project: Project,
        data_source_id: &String,
        document_id: &String,
        version_hash: &Option<String>,
    ) -> (r: Option<(DocumentVersion, Vec<String>, Vec<String>, String)>)
        requires
            self.wf(),
        ensures
            r is Some ==> has_doc(self@, project, data_source_id@, document_id@),
            has_doc(self@, project, data_source_id@, document_id@) ==> {
                let d = self@[doc_index(self@, project, data_source_id@, document_id@)];
                let v = chosen_version(d.versions, option_view(*version_hash));
                &&& r is Some <==> v is Some
                &&& r is Some ==> (r->0).0 == v->0 && (r->0).1@ == d.tags && (r->0).2@ == d.parents
                    && (r->0).3@ == d.status
            },
    {
        match self.find_document(project, data_source_id, document_id) {
            Some(i) => {
                proof {
                    lemma_doc_index(self@, i as int, project, data_source_id@, document_id@);
                }
                let d = &self.docs[i];
                match d.versions.choose_version(version_hash) {
                    Some(v) => Some(
                        (v, d.tags.to_vec(), copy_strings(&d.parents), d.status.clone()),
                    ),
                    None => None,
                }
            },
            None => None,
        }
    }

    /// One page of the documents of a data source, each by its id and its
    /// latest version, in the order of their creation, and the number of all
    /// of them.
    pub fn list_documents(
        &self,
        project: Project,
        data_source_id: &String,
        limit_offset: Option<(usize, usize)>,
    ) -> (r: (Vec<(String, DocumentVersion)>, usize))
        ensures
            entries(r.0@) == page_of(listed_docs(self@, project, data_source_id@), limit_offset),
            r.1 == listed_docs(self@, project, data_source_id@).len(),
    {
        let mut all: Vec<(String, DocumentVersion)> = Vec::new();
        let mut i: usize = 0;
        proof {
            assert(views(self.docs@.take(0)) =~= Seq::<DocumentView>::empty());
            assert(entries(all@) =~= Seq::<(Seq<char>, DocumentVersion)>::empty());
        }
        while i < self.docs.len()
            invariant
                i <= self.docs@.len(),
                entries(all@) == listed_docs(
                    views(self.docs@.take(i as int)),
                    project,
                    data_source_id@,
                ),
            decreases self.docs@.len() - i,
        {
            proof {
                assert(views(self.docs@.take(i + 1)).drop_last() =~= views(self.docs@.take(i as int)));
                assert(views(self.docs@.take(i + 1)).last() == self.docs@[i as int]@);
            }
            let d = &self.docs[i];
            if d.project == project && d.data_source_id == *data_source_id {
                match d.versions.choose_version(&None) {
                    Some(v) => {
                        let ghost prev = entries(all@);
                        all.push((d.document_id.clone(), v));
                        proof {
                            assert(entries(all@) =~= prev.push((d.document_id@, v)));
                        }
                    },
                    None => {},
                }
            }
            i = i + 1;
        }
        proof {
            assert(self.docs@.take(i as int) =~= self.docs@);
        }
        let total: usize = all.len();
        let (start, end) = page_window(total, limit_offset);
        let mut out: Vec<(String, DocumentVersion)> = Vec::new();
        let mut j: usize = start;
        while j < end
            invariant
                start <= j <= end <= all@.len(),
                out@ == all@.subrange(start as int, j as int),
            decreases end - j,
        {
            out.push((all[j].0.clone(), all[j].1.duplicate()));
            proof {
                assert(out@ =~= all@.subrange(start as int, j + 1));
            }
            j = j + 1;
        }
        proof {
            assert(entries(out@) =~= page_of(entries(all@), limit_offset));
        }
        (out, total)
    }

    /// One page of the versions of a document, and the length of the whole
    /// listing; see `VersionHistory::list`. An absent document lists nothing.
    pub fn list_versions(
        &self,
        project: Project,
        data_source_id: &String,
        document_id: &String,
        limit_offset: Option<(usize, usize)>,
        latest_hash: &Option<String>,
    ) -> (r: (Vec<DocumentVersion>, usize))
        requires
            self.wf(),
        ensures
            !has_doc(self@, project, data_source_id@, document_id@) ==> r.0@.len() == 0 && r.1 == 0,
            has_doc(self@, project, data_source_id@, document_id@) ==> {
                let d = self@[doc_index(self@, project, data_source_id@, document_id@)];
                &&& r.0@ == page_of(listed(d.versions, option_view(*latest_hash)), limit_offset)
                &&& r.1 == listed(d.versions, option_view(*latest_hash)).len()
            },
    {
        match self.find_document(project, data_source_id, document_id) {
            Some(i) => {
                proof {
                    lemma_doc_index(self@, i as int, project, data_source_id@, document_id@);
                }
                self.docs[i].versions.list(limit_offset, latest_hash)
            },
            None => (Vec::new(), 0),
        }
    }

    /// One page of the ids of the documents of a data source that pass the
    /// filter, in the order of their creation, and the number of all of them.
    pub fn find_document_ids(
        &self,
        project: Project,
        data_source_id: &String,
        filter: &Option<SearchFilter>,
        limit_offset: Option<(usize, usize)>,
    ) -> (r: (Vec<String>, usize))
        requires
            self.wf(),
        ensures
            texts(r.0@) == page_of(
                found_ids(self@, project, data_source_id@, *filter),
                limit_offset,
            ),
            r.1 == found_ids(self@, project, data_source_id@, *filter).len(),
    {
        let mut all: Vec<String> = Vec::new();
        let mut i: usize = 0;
        proof {
            assert(views(self.docs@.take(0)) =~= Seq::<DocumentView>::empty());
            assert(texts(all@) =~= Seq::<Seq<char>>::empty());
        }
        while i < self.docs.len()
            invariant
                i <= self.docs@.len(),
                self.wf(),
                texts(all@) == found_ids(
                    views(self.docs@.take(i as int)),
                    project,
                    data_source_id@,
                    *filter,
                ),
            decreases self.docs@.len() - i,
        {
            proof {
                assert(views(self.docs@.take(i + 1)).drop_last() =~= views(self.docs@.take(i as int)));
                assert(views(self.docs@.take(i + 1)).last() == self.docs@[i as int]@);
                assert(self@[i as int] == self.docs@[i as int]@);
            }
            let d = &self.docs[i];
            if d.project == project && d.data_source_id == *data_source_id {
                let passed = match filter {
                    None => true,
                    Some(f) => {
                        let latest = match d.versions.latest() {
                            None => None,
                            Some(v) => Some(v.created),
                        };
                        admits(&d.tags.to_vec(), &d.parents, latest, f)
                    },
                };
                if passed {
                    let ghost prev = texts(all@);
                    all.push(d.document_id.clone());
                    proof {
                        assert(texts(all@) =~= prev.push(d.document_id@));
                    }
                }
            }
            i = i + 1;
        }
        proof {
            assert(self.docs@.take(i as int) =~= self.docs@);
        }
        let r = paginate(&all, limit_offset);
        proof {
            assert(texts(r.0@) =~= page_of(texts(all@), limit_offset));
        }
        r
    }

    /// Deletes the documents in scope: one document, the documents of one
    /// data source, or those of a whole project, each with all its versions.
    pub fn delete(&mut self, project: Project, data_source_id: &Option<String>, document_id: &Option<String>)
        requires
            old(self).wf(),
        ensures
            final(self).wf(),
            final(self)@ == kept_docs(
                old(self)@,
                project,
                option_view(*data_source_id),
                option_view(*document_id),
            ),
    {
        let ghost ds = option_view(*data_source_id);
        let ghost id = option_view(*document_id);
        proof {
            lemma_kept_docs(self@, project, ds, id);
        }
        let mut kept: Vec<Document> = Vec::new();
        let mut i: usize = 0;
        proof {
            assert(views(kept@) =~= Seq::<DocumentView>::empty());
            assert(views(self.docs@.take(0)) =~= Seq::<DocumentView>::empty());
        }
        while i < self.docs.len()
            invariant
                i <= self.docs@.len(),
                ds == option_view(*data_source_id),
                id == option_view(*document_id),
                views(kept@) == kept_docs(views(self.docs@.take(i as int)), project, ds, id),
            decreases self.docs@.len() - i,
        {
            proof {
                assert(views(self.docs@.take(i + 1)).drop_last() =~= views(self.docs@.take(i as int)));
                assert(views(self.docs@.take(i + 1)).last() == self.docs@[i as int]@);
            }
            let d = &self.docs[i];
            let taken = d.project == project && (match data_source_id {
                None => true,
                Some(s) => d.data_source_id == *s,
            }) && (match document_id {
                None => true,
                Some(s) => d.document_id == *s,
            });
            if !taken {
                let ghost prev = views(kept@);
                let c = copy_document(d);
                kept.push(c);
                proof {
                    assert(views(kept@) =~= prev.push(c@));
                }
            }
            i = i + 1;
        }
        proof {
            assert(self.docs@.take(i as int) =~= self.docs@);
        }
        self.docs = kept;
    }
}

} // verus!
