//! Tags of a document: a set of strings kept in the order of first addition.
//! Adding and removing are idempotent and leave the content history alone.

use vstd::prelude::*;

verus! {

/// No tag stands twice.
pub open spec fn distinct_tags(tags: Seq<String>) -> bool {
    forall|i: int, j: int| 0 <= i < j < tags.len() ==> (#[trigger] tags[i])@ != (#[trigger] tags[j])@
}

/// The tag is in the set.
pub open spec fn has_tag(tags: Seq<String>, t: Seq<char>) -> bool {
    exists|i: int| 0 <= i < tags.len() && (#[trigger] tags[i])@ == t
}

/// A position at which the tag stands, where there is one.
pub open spec fn tag_index(tags: Seq<String>, t: Seq<char>) -> int {
    choose|i: int| 0 <= i < tags.len() && (#[trigger] tags[i])@ == t
}

/// The set after adding one tag.
pub open spec fn with_tag(tags: Seq<String>, t: String) -> Seq<String> {
    if has_tag(tags, t@) {
        tags
    } else {
        tags.push(t)
    }
}

/// The set after removing one tag.
pub open spec fn without_tag(tags: Seq<String>, t: Seq<char>) -> Seq<String> {
    if has_tag(tags, t) {
        tags.remove(tag_index(tags, t))
    } else {
        tags
    }
}

/// The set after adding each tag of `add`, first to last.
pub open spec fn with_tags(tags: Seq<String>, add: Seq<String>) -> Seq<String>
    decreases add.len(),
{
    if add.len() == 0 {
        tags
    } else {
        with_tag(with_tags(tags, add.drop_last()), add.last())
    }
}

/// The set after removing each tag of `remove`, first to last.
pub open spec fn without_tags(tags: Seq<String>, remove: Seq<String>) -> Seq<String>
    decreases remove.len(),
{
    if remove.len() == 0 {
        tags
    } else {
        without_tag(without_tags(tags, remove.drop_last()), remove.last()@)
    }
}

/// The set after an update: additions first, then removals.
pub open spec fn updated_tags(tags: Seq<String>, add: Seq<String>, remove: Seq<String>) -> Seq<
    String,
> {
    without_tags(with_tags(tags, add), remove)
}

/// Adding keeps the tags distinct, and the added tag is then in the set.
pub proof fn lemma_with_tag(tags: Seq<String>, t: String)
    requires
        distinct_tags(tags),
    ensures
        distinct_tags(with_tag(tags, t)),
        has_tag(with_tag(tags, t), t@),
{
    let out = with_tag(tags, t);
    if has_tag(tags, t@) {
    } else {
        assert(out[tags.len() as int]@ == t@);
        assert forall|i: int, j: int| 0 <= i < j < out.len() implies (#[trigger] out[i])@ != (
        #[trigger] out[j])@ by {
            if j == tags.len() {
                assert(tags[i]@ != t@);
            } else {
                assert(tags[i]@ != tags[j]@);
            }
        }
    }
}

/// Removing keeps the tags distinct, and the removed tag is then absent.
pub proof fn lemma_without_tag(tags: Seq<String>, t: Seq<char>)
    requires
        distinct_tags(tags),
    ensures
        distinct_tags(without_tag(tags, t)),
        !has_tag(without_tag(tags, t), t),
{
    let out = without_tag(tags, t);
    if has_tag(tags, t) {
        let k = tag_index(tags, t);
        assert forall|i: int, j: int| 0 <= i < j < out.len() implies (#[trigger] out[i])@ != (
        #[trigger] out[j])@ by {
            let a = if i < k { i } else { i + 1 };
            let b = if j < k { j } else { j + 1 };
            assert(tags[a]@ != tags[b]@);
        }
        if has_tag(out, t) {
            let i = tag_index(out, t);
            let a = if i < k { i } else { i + 1 };
            assert(out[i] == tags[a]);
            if a < k {
                assert(tags[a]@ != tags[k]@);
            } else {
                assert(tags[k]@ != tags[a]@);
            }
        }
    }
}

/// Adding a tag a second time changes nothing; on the empty set, adding a tag
/// twice leaves the set that holds it once.
pub proof fn lemma_add_is_idempotent(tags: Seq<String>, t: String)
    ensures
        with_tag(with_tag(tags, t), t) == with_tag(tags, t),
        with_tag(with_tag(Seq::empty(), t), t) == seq![t],
{
    let once = with_tag(tags, t);
    if !has_tag(tags, t@) {
        assert(once[tags.len() as int]@ == t@);
    }
    let e = Seq::<String>::empty();
    assert(!has_tag(e, t@));
    assert(e.push(t) =~= seq![t]);
    assert(seq![t][0]@ == t@);
}

/// Removing a tag that the set does not hold changes nothing.
pub proof fn lemma_remove_absent_is_noop(tags: Seq<String>, t: Seq<char>)
    requires
        !has_tag(tags, t),
    ensures
        without_tag(tags, t) == tags,
{
}

/// The tags of one document.
pub struct TagSet {
    tags: Vec<String>,
}

impl TagSet {
    /// The tags in the order of first addition.
    pub closed spec fn view(&self) -> Seq<String> {
        self.tags@
    }

    pub open spec fn wf(&self) -> bool {
        distinct_tags(self@)
    }

    pub fn new() -> (r: TagSet)
        ensures
            r@ == Seq::<String>::empty(),
            r.wf(),
    {
        TagSet { tags: Vec::new() }
    }

    /// The position of the tag, if the set holds it.
    pub fn find(&self, tag: &String) -> (r: Option<usize>)
        ensures
            r is Some <==> has_tag(self@, tag@),
            r is Some ==> r->0 < self@.len() && self@[r->0 as int]@ == tag@,
    {
        let mut i: usize = 0;
        while i < self.tags.len()
            invariant
                i <= self.tags@.len(),
                forall|j: int| 0 <= j < i ==> (#[trigger] self.tags@[j])@ != tag@,
            decreases self.tags@.len() - i,
        {
            if self.tags[i] == *tag {
                return Some(i);
            }
            i = i + 1;
        }
        None
    }

    pub fn add_tag(&mut self, tag: &String)
        requires
            old(self).wf(),
        ensures
            final(self).wf(),
            final(self)@ == with_tag(old(self)@, *tag),
    {
        proof {
            lemma_with_tag(self@, *tag);
        }
        if self.find(tag).is_none() {
            self.tags.push(tag.clone());
        }
    }

    pub fn remove_tag(&mut self, tag: &String)
        requires
            old(self).wf(),
        ensures
            final(self).wf(),
            final(self)@ == without_tag(old(self)@, tag@),
    {
        proof {
            lemma_without_tag(self@, tag@);
        }
        match self.find(tag) {
            Some(i) => {
                proof {
                    let k = tag_index(self@, tag@);
                    assert(self@[k]@ == self@[i as int]@);
                    assert(k == i);
                }
                self.tags.remove(i);
            },
            None => {},
        }
    }

    /// Adds the tags of `add`, then removes those of `remove`, and returns
    /// the resulting set.
    pub fn update(&mut self, add: &Vec<String>, remove: &Vec<String>) -> (r: Vec<String>)
        requires
            old(self).wf(),
        ensures
            final(self).wf(),
            final(self)@ == updated_tags(old(self)@, add@, remove@),
            r@ == final(self)@,
    {
        let mut i: usize = 0;
        while i < add.len()
            invariant
                i <= add@.len(),
                self.wf(),
                self@ == with_tags(old(self)@, add@.take(i as int)),
            decreases add@.len() - i,
        {
            proof {
                assert(add@.take(i + 1).drop_last() =~= add@.take(i as int));
            }
            self.add_tag(&add[i]);
            i = i + 1;
        }
        proof {
            assert(add@.take(i as int) =~= add@);
        }
        let ghost mid = self@;
        let mut j: usize = 0;
        while j < remove.len()
            invariant
                j <= remove@.len(),
                self.wf(),
                self@ == without_tags(mid, remove@.take(j as int)),
            decreases remove@.len() - j,
        {
            proof {
                assert(remove@.take(j + 1).drop_last() =~= remove@.take(j as int));
            }
            self.remove_tag(&remove[j]);
            j = j + 1;
        }
        proof {
            assert(remove@.take(j as int) =~= remove@);
        }
        self.to_vec()
    }

    /// A copy with the same tags.
    pub fn duplicate(&self) -> (r: TagSet)
        ensures
            r@ == self@,
    {
        TagSet { tags: self.to_vec() }
    }

    /// A copy of the tags.
    pub fn to_vec(&self) -> (r: Vec<String>)
        ensures
            r@ == self@,
    {
        let mut out: Vec<String> = Vec::new();
        let mut k: usize = 0;
        while k < self.tags.len()
            invariant
                k <= self.tags@.len(),
                out@ == self.tags@.take(k as int),
            decreases self.tags@.len() - k,
        {
            out.push(self.tags[k].clone());
            proof {
                assert(out@ =~= self.tags@.take(k + 1));
            }
            k = k + 1;
        }
        proof {
            assert(out@ =~= self.tags@);
        }
        out
    }
}

} // verus!
