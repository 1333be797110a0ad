//! Finding documents of a data source by a filter on their tags, their
//! parents and the creation time of their latest version.

use vstd::prelude::*;
use crate::documents::DocumentView;
use crate::project::Project;

verus! {

/// A filter on documents. Each part that is present must hold.
#[derive(Clone, Debug, PartialEq, Eq)]
pub struct SearchFilter {
    /// The document has at least one of these tags.
    pub tags_in: Option<Vec<String>>,
    /// The document has none of these tags.
    pub tags_not: Option<Vec<String>>,
    /// The document has at least one of these parents.
    pub parents_in: Option<Vec<String>>,
    /// The document has none of these parents.
    pub parents_not: Option<Vec<String>>,
    /// The latest version was created after this time.
    pub created_after: Option<u64>,
    /// The latest version was created before this time.
    pub created_before: Option<u64>,
}

/// The two lists have a string in common.
pub open spec fn shares(a: Seq<String>, b: Seq<String>) -> bool {
    exists|i: int, j: int|
        0 <= i < a.len() && 0 <= j < b.len() && (#[trigger] a[i])@ == (#[trigger] b[j])@
}

/// The document passes the filter.
pub open spec fn passes(d: DocumentView, f: SearchFilter) -> bool {
    &&& (f.tags_in is Some ==> shares(d.tags, (f.tags_in->0)@))
    &&& (f.tags_not is Some ==> !shares(d.tags, (f.tags_not->0)@))
    &&& (f.parents_in is Some ==> shares(d.parents, (f.parents_in->0)@))
    &&& (f.parents_not is Some ==> !shares(d.parents, (f.parents_not->0)@))
    &&& (f.created_after is Some ==> d.versions.len() > 0 && d.versions.last().created
        > f.created_after->0)
    &&& (f.created_before is Some ==> d.versions.len() > 0 && d.versions.last().created
        < f.created_before->0)
}

/// The document is found: it belongs to the data source and passes the
/// filter, if there is one.
pub open spec fn found(
    d: DocumentView,
    project: Project,
    ds: Seq<char>,
    filter: Option<SearchFilter>,
) -> bool {
    d.project == project && d.data_source_id == ds && (filter is Some ==> passes(d, filter->0))
}

/// The ids of the documents found, in the order of their creation.
pub open spec fn found_ids(
    docs: Seq<DocumentView>,
    project: Project,
    ds: Seq<char>,
    filter: Option<SearchFilter>,
) -> Seq<Seq<char>>
    decreases docs.len(),
{
    if docs.len() == 0 {
        Seq::empty()
    } else {
        let rest = found_ids(docs.drop_last(), project, ds, filter);
        if found(docs.last(), project, ds, filter) {
            rest.push(docs.last().document_id)
        } else {
            rest
        }
    }
}

/// The characters of each string.
pub open spec fn texts(s: Seq<String>) -> Seq<Seq<char>> {
    Seq::new(s.len(), |i: int| s[i]@)
}

/// Whether the two lists have a string in common.
pub fn have_common(a: &Vec<String>, b: &Vec<String>) -> (r: bool)
    ensures
        r == shares(a@, b@),
{
    let mut i: usize = 0;
    while i < a.len()
        invariant
            i <= a@.len(),
            forall|x: int, y: int|
                0 <= x < i && 0 <= y < b@.len() ==> (#[trigger] a@[x])@ != (#[trigger] b@[y])@,
        decreases a@.len() - i,
    {
        let mut j: usize = 0;
        while j < b.len()
            invariant
                i < a@.len(),
                j <= b@.len(),
                forall|y: int| 0 <= y < j ==> a@[i as int]@ != (#[trigger] b@[y])@,
            decreases b@.len() - j,
        {
            if a[i] == b[j] {
                return true;
            }
            j = j + 1;
        }
        i = i + 1;
    }
    false
}

/// Whether a document with these tags, these parents and a latest version
/// created at `latest` (if it has one) passes the filter.
pub fn admits(
    tags: &Vec<String>,
    parents: &Vec<String>,
    latest: Option<u64>,
    filter: &SearchFilter,
) -> (r: bool)
    ensures
        r == ({
            &&& (filter.tags_in is Some ==> shares(tags@, (filter.tags_in->0)@))
            &&& (filter.tags_not is Some ==> !shares(tags@, (filter.tags_not->0)@))
            &&& (filter.parents_in is Some ==> shares(parents@, (filter.parents_in->0)@))
            &&& (filter.parents_not is Some ==> !shares(parents@, (filter.parents_not->0)@))
            &&& (filter.created_after is Some ==> latest is Some && latest->0
                > filter.created_after->0)
            &&& (filter.created_before is Some ==> latest is Some && latest->0
                < filter.created_before->0)
        }),
{
    let tags_in = match &filter.tags_in {
        None => true,
        Some(wanted) => have_common(tags, wanted),
    };
    let tags_not = match &filter.tags_not {
        None => true,
        Some(unwanted) => !have_common(tags, unwanted),
    };
    let parents_in = match &filter.parents_in {
        None => true,
        Some(wanted) => have_common(parents, wanted),
    };
    let parents_not = match &filter.parents_not {
        None => true,
        Some(unwanted) => !have_common(parents, unwanted),
    };
    let after = match filter.created_after {
        None => true,
        Some(t) => match latest {
            None => false,
            Some(c) => c > t,
        },
    };
    let before = match filter.created_before {
        None => true,
        Some(t) => match latest {
            None => false,
            Some(c) => c < t,
        },
    };
    tags_in && tags_not && parents_in && parents_not && after && before
}

} // verus!
