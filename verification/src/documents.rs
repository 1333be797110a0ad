//! Documents of data sources. A document is known by its project, data
//! source and document id; it carries a content history, a tag set, a list
//! of parents and a status. Tags, parents and status belong to the document,
//! not to a version: changing them adds no version.

use vstd::prelude::*;
use crate::project::Project;
use crate::tags::{distinct_tags, with_tags, TagSet};
use crate::versions::{ascending, upserted, DocumentVersion, VersionHistory};

verus! {

/// What a document holds.
pub struct DocumentView {
    pub project: Project,
    pub data_source_id: Seq<char>,
    pub document_id: Seq<char>,
    pub versions: Seq<DocumentVersion>,
    pub tags: Seq<String>,
    pub parents: Seq<String>,
    pub status: Seq<char>,
}

/// A stored document.
pub struct Document {
    pub project: Project,
    pub data_source_id: String,
    pub document_id: String,
    pub versions: VersionHistory,
    pub tags: TagSet,
    pub parents: Vec<String>,
    pub status: String,
}

impl Document {
    pub open spec fn view(&self) -> DocumentView {
        DocumentView {
            project: self.project,
            data_source_id: self.data_source_id@,
            document_id: self.document_id@,
            versions: self.versions@,
            tags: self.tags@,
            parents: self.parents@,
            status: self.status@,
        }
    }
}

/// What each of the documents holds.
pub open spec fn views(docs: Seq<Document>) -> Seq<DocumentView> {
    Seq::new(docs.len(), |i: int| docs[i]@)
}

/// The document is the one with this key.
pub open spec fn is_doc(d: DocumentView, project: Project, ds: Seq<char>, id: Seq<char>) -> bool {
    d.project == project && d.data_source_id == ds && d.document_id == id
}

/// A document with the key is stored.
pub open spec fn has_doc(
    docs: Seq<DocumentView>,
    project: Project,
    ds: Seq<char>,
    id: Seq<char>,
) -> bool {
    exists|i: int| 0 <= i < docs.len() && is_doc(#[trigger] docs[i], project, ds, id)
}

/// A position at which the key is stored, where there is one.
pub open spec fn doc_index(
    docs: Seq<DocumentView>,
    project: Project,
    ds: Seq<char>,
    id: Seq<char>,
) -> int {
    choose|i: int| 0 <= i < docs.len() && is_doc(#[trigger] docs[i], project, ds, id)
}

/// What the document with the key holds.
pub open spec fn doc_of(
    docs: Seq<DocumentView>,
    project: Project,
    ds: Seq<char>,
    id: Seq<char>,
) -> DocumentView {
    docs[doc_index(docs, project, ds, id)]
}

/// The documents with the tags of one of them replaced.
pub open spec fn with_doc_tags(
    docs: Seq<DocumentView>,
    project: Project,
    ds: Seq<char>,
    id: Seq<char>,
    tags: Seq<String>,
) -> Seq<DocumentView> {
    docs.update(
        doc_index(docs, project, ds, id),
        DocumentView { tags, ..doc_of(docs, project, ds, id) },
    )
}

/// The documents with the parents of one of them replaced.
pub open spec fn with_doc_parents(
    docs: Seq<DocumentView>,
    project: Project,
    ds: Seq<char>,
    id: Seq<char>,
    parents: Seq<String>,
) -> Seq<DocumentView> {
    docs.update(
        doc_index(docs, project, ds, id),
        DocumentView { parents, ..doc_of(docs, project, ds, id) },
    )
}

/// Id and latest version of each document of a data source that has a
/// version, in the order of their creation.
pub open spec fn listed_docs(docs: Seq<DocumentView>, project: Project, ds: Seq<char>) -> Seq<
    (Seq<char>, DocumentVersion),
>
    decreases docs.len(),
{
    if docs.len() == 0 {
        Seq::empty()
    } else {
        let rest = listed_docs(docs.drop_last(), project, ds);
        let d = docs.last();
        if d.project == project && d.data_source_id == ds && d.versions.len() > 0 {
            rest.push((d.document_id, d.versions.last()))
        } else {
            rest
        }
    }
}

/// The characters of each id, beside its version.
pub open spec fn entries(s: Seq<(String, DocumentVersion)>) -> Seq<(Seq<char>, DocumentVersion)> {
    Seq::new(s.len(), |i: int| (s[i].0@, s[i].1))
}

/// No two documents share a key, every history is ascending and every tag
/// set is free of repetitions.
pub open spec fn documents_sound(docs: Seq<DocumentView>) -> bool {
    &&& forall|i: int, j: int|
        0 <= i < j < docs.len() ==> !is_doc(
            #[trigger] docs[i],
            (#[trigger] docs[j]).project,
            docs[j].data_source_id,
            docs[j].document_id,
        )
    &&& forall|i: int|
        0 <= i < docs.len() ==> ascending((#[trigger] docs[i]).versions) && distinct_tags(
            docs[i].tags,
        )
}

/// Whether a deletion takes the document: one aimed at a project takes all
/// of its documents, one aimed at a data source all of that source, one
/// aimed at a document that one.
pub open spec fn in_scope(
    d: DocumentView,
    project: Project,
    ds: Option<Seq<char>>,
    id: Option<Seq<char>>,
) -> bool {
    &&& d.project == project
    &&& (ds is Some ==> d.data_source_id == ds->0)
    &&& (id is Some ==> d.document_id == id->0)
}

/// The documents that a deletion leaves, in their order.
pub open spec fn kept_docs(
    docs: Seq<DocumentView>,
    project: Project,
    ds: Option<Seq<char>>,
    id: Option<Seq<char>>,
) -> Seq<DocumentView>
    decreases docs.len(),
{
    if docs.len() == 0 {
        Seq::empty()
    } else {
        let rest = kept_docs(docs.drop_last(), project, ds, id);
        if in_scope(docs.last(), project, ds, id) {
            rest
        } else {
            rest.push(docs.last())
        }
    }
}

/// The documents after an upsert: an existing document gets the content
/// (a version more only where the hash differs from its latest), the tags and
/// the parents and the status; an absent one is created with them.
pub open spec fn upserted_docs(
    docs: Seq<DocumentView>,
    project: Project,
    ds: Seq<char>,
    id: Seq<char>,
    hash: String,
    now: u64,
    tags: Seq<String>,
    parents: Seq<String>,
    status: Seq<char>,
) -> Seq<DocumentView> {
    if has_doc(docs, project, ds, id) {
        let i = doc_index(docs, project, ds, id);
        docs.update(
            i,
            DocumentView {
                versions: upserted(docs[i].versions, hash, now),
                tags: with_tags(Seq::empty(), tags),
                parents,
                status,
                ..docs[i]
            },
        )
    } else {
        docs.push(
            DocumentView {
                project,
                data_source_id: ds,
                document_id: id,
                versions: upserted(Seq::empty(), hash, now),
                tags: with_tags(Seq::empty(), tags),
                parents,
                status,
            },
        )
    }
}

/// Each kept document is an old one out of scope, in scope none is left,
/// and the kept documents are sound where the old ones were.
pub proof fn lemma_kept_docs(
    docs: Seq<DocumentView>,
    project: Project,
    ds: Option<Seq<char>>,
    id: Option<Seq<char>>,
)
    ensures
        forall|i: int|
            0 <= i < kept_docs(docs, project, ds, id).len() ==> !in_scope(
                #[trigger] kept_docs(docs, project, ds, id)[i],
                project,
                ds,
                id,
            ) && docs.contains(kept_docs(docs, project, ds, id)[i]),
        forall|k: int|
            0 <= k < docs.len() && !in_scope(#[trigger] docs[k], project, ds, id) ==> kept_docs(
                docs,
                project,
                ds,
                id,
            ).contains(docs[k]),
        documents_sound(docs) ==> documents_sound(kept_docs(docs, project, ds, id)),
    decreases docs.len(),
{
    let out = kept_docs(docs, project, ds, id);
    if docs.len() > 0 {
        let head = docs.drop_last();
        let rest = kept_docs(head, project, ds, id);
        lemma_kept_docs(head, project, ds, id);
        assert forall|i: int| 0 <= i < out.len() implies !in_scope(#[trigger] out[i], project, ds, id)
            && docs.contains(out[i]) by {
            if i < rest.len() {
                assert(out[i] == rest[i]);
                let k = choose|k: int| 0 <= k < head.len() && head[k] == rest[i];
                assert(docs[k] == out[i]);
            } else {
                assert(docs[docs.len() - 1] == out[i]);
            }
        }
        assert forall|k: int|
            0 <= k < docs.len() && !in_scope(#[trigger] docs[k], project, ds, id) implies out.contains(
            docs[k],
        ) by {
            if k < head.len() {
                assert(head[k] == docs[k]);
                let i = choose|i: int| 0 <= i < rest.len() && rest[i] == head[k];
                assert(out[i] == docs[k]);
            } else {
                assert(out[out.len() - 1] == docs[k]);
            }
        }
        if documents_sound(docs) {
            assert(documents_sound(head)) by {
                assert forall|i: int, j: int| 0 <= i < j < head.len() implies !is_doc(
                    #[trigger] head[i],
                    (#[trigger] head[j]).project,
                    head[j].data_source_id,
                    head[j].document_id,
                ) by {
                    assert(!is_doc(docs[i], docs[j].project, docs[j].data_source_id, docs[j].document_id));
                }
                assert forall|i: int| 0 <= i < head.len() implies ascending(
                    (#[trigger] head[i]).versions,
                ) && distinct_tags(head[i].tags) by {
                    assert(head[i] == docs[i]);
                }
            }
            assert forall|i: int, j: int| 0 <= i < j < out.len() implies !is_doc(
                #[trigger] out[i],
                (#[trigger] out[j]).project,
                out[j].data_source_id,
                out[j].document_id,
            ) by {
                if j < rest.len() {
                    assert(!is_doc(rest[i], rest[j].project, rest[j].data_source_id, rest[j].document_id));
                } else {
                    assert(out[i] == rest[i]);
                    let k = choose|k: int| 0 <= k < head.len() && head[k] == rest[i];
                    let l = docs.len() - 1;
                    assert(!is_doc(docs[k], docs[l].project, docs[l].data_source_id, docs[l].document_id));
                }
            }
            assert forall|i: int| 0 <= i < out.len() implies ascending((#[trigger] out[i]).versions)
                && distinct_tags(out[i].tags) by {
                if i < rest.len() {
                    assert(out[i] == rest[i]);
                } else {
                    assert(out[i] == docs[docs.len() - 1]);
                }
            }
        }
    }
}

/// Replacing what one document holds, under its key, keeps the documents
/// sound.
pub proof fn lemma_update_sound(docs: Seq<DocumentView>, i: int, d: DocumentView)
    requires
        documents_sound(docs),
        0 <= i < docs.len(),
        is_doc(d, docs[i].project, docs[i].data_source_id, docs[i].document_id),
        ascending(d.versions),
        distinct_tags(d.tags),
    ensures
        documents_sound(docs.update(i, d)),
{
    let out = docs.update(i, d);
    assert forall|a: int, b: int| 0 <= a < b < out.len() implies !is_doc(
        #[trigger] out[a],
        (#[trigger] out[b]).project,
        out[b].data_source_id,
        out[b].document_id,
    ) by {
        assert(!is_doc(docs[a], docs[b].project, docs[b].data_source_id, docs[b].document_id));
    }
    assert forall|a: int| 0 <= a < out.len() implies ascending((#[trigger] out[a]).versions)
        && distinct_tags(out[a].tags) by {
        if a != i {
            assert(out[a] == docs[a]);
        }
    }
}

} // verus!
