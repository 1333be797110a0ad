//! Rows of a structured table: JSON content keyed by a row id that is unique
//! within the table, written one by one or as a batch that may replace the
//! whole content.

use vstd::prelude::*;
use crate::page::{page_of, page_window};

verus! {

/// One row: its id within the table and its JSON content.
#[derive(Clone, Debug, PartialEq, Eq)]
pub struct DatabaseRow {
    pub row_id: String,
    pub content: String,
}

impl DatabaseRow {
    pub fn new(row_id: &String, content: &String) -> (r: DatabaseRow)
        ensures
            r == (DatabaseRow { row_id: *row_id, content: *content }),
    {
        DatabaseRow { row_id: row_id.clone(), content: content.clone() }
    }

    pub fn duplicate(&self) -> (r: DatabaseRow)
        ensures
            r == *self,
    {
        DatabaseRow { row_id: self.row_id.clone(), content: self.content.clone() }
    }
}

/// No two rows share an id.
pub open spec fn distinct_ids(rows: Seq<DatabaseRow>) -> bool {
    forall|i: int, j: int|
        0 <= i < j < rows.len() ==> (#[trigger] rows[i]).row_id@ != (#[trigger] rows[j]).row_id@
}

/// Some row has the id.
pub open spec fn has_row(rows: Seq<DatabaseRow>, id: Seq<char>) -> bool {
    exists|i: int| 0 <= i < rows.len() && (#[trigger] rows[i]).row_id@ == id
}

/// A position at which the id stands, where there is one.
pub open spec fn row_index(rows: Seq<DatabaseRow>, id: Seq<char>) -> int {
    choose|i: int| 0 <= i < rows.len() && (#[trigger] rows[i]).row_id@ == id
}

/// The rows after one upsert: the row takes the place of the one with its
/// id, or goes to the end.
pub open spec fn upsert_one(rows: Seq<DatabaseRow>, row: DatabaseRow) -> Seq<DatabaseRow> {
    if has_row(rows, row.row_id@) {
        rows.update(row_index(rows, row.row_id@), row)
    } else {
        rows.push(row)
    }
}

/// The rows after upserting a batch from its first row to its last.
pub open spec fn upsert_all(rows: Seq<DatabaseRow>, batch: Seq<DatabaseRow>) -> Seq<DatabaseRow>
    decreases batch.len(),
{
    if batch.len() == 0 {
        rows
    } else {
        upsert_one(upsert_all(rows, batch.drop_last()), batch.last())
    }
}

/// What a batch write leaves in the table.
pub open spec fn batch_result(
    rows: Seq<DatabaseRow>,
    batch: Seq<DatabaseRow>,
    truncate: bool,
) -> Seq<DatabaseRow> {
    upsert_all(if truncate { Seq::empty() } else { rows }, batch)
}

/// An upsert keeps row ids unique.
pub proof fn lemma_upsert_one_distinct(rows: Seq<DatabaseRow>, row: DatabaseRow)
    requires
        distinct_ids(rows),
    ensures
        distinct_ids(upsert_one(rows, row)),
{
    let out = upsert_one(rows, row);
    if has_row(rows, row.row_id@) {
        let k = row_index(rows, row.row_id@);
        assert forall|i: int, j: int| 0 <= i < j < out.len() implies (#[trigger] out[i]).row_id@ != (
        #[trigger] out[j]).row_id@ by {
            assert(rows[i].row_id@ != rows[j].row_id@);
            if i == k {
                assert(rows[k].row_id@ != rows[j].row_id@);
            }
            if j == k {
                assert(rows[i].row_id@ != rows[k].row_id@);
            }
        }
    } else {
        assert forall|i: int, j: int| 0 <= i < j < out.len() implies (#[trigger] out[i]).row_id@ != (
        #[trigger] out[j]).row_id@ by {
            if j == rows.len() {
                assert(rows[i].row_id@ != row.row_id@);
            } else {
                assert(rows[i].row_id@ != rows[j].row_id@);
            }
        }
    }
}

/// A batch of upserts keeps row ids unique.
pub proof fn lemma_upsert_all_distinct(rows: Seq<DatabaseRow>, batch: Seq<DatabaseRow>)
    requires
        distinct_ids(rows),
    ensures
        distinct_ids(upsert_all(rows, batch)),
    decreases batch.len(),
{
    if batch.len() > 0 {
        lemma_upsert_all_distinct(rows, batch.drop_last());
        lemma_upsert_one_distinct(upsert_all(rows, batch.drop_last()), batch.last());
    }
}

/// A truncating write of a batch with unique ids leaves exactly the batch:
/// every earlier row is gone, whatever the table held.
pub proof fn lemma_truncate_replaces(rows: Seq<DatabaseRow>, batch: Seq<DatabaseRow>)
    requires
        distinct_ids(batch),
    ensures
        batch_result(rows, batch, true) == batch,
    decreases batch.len(),
{
    if batch.len() > 0 {
        let head = batch.drop_last();
        lemma_truncate_replaces(rows, head);
        assert(!has_row(head, batch.last().row_id@)) by {
            if has_row(head, batch.last().row_id@) {
                let k = row_index(head, batch.last().row_id@);
                assert(batch[k].row_id@ == batch[batch.len() - 1].row_id@);
            }
        }
        assert(head.push(batch.last()) =~= batch);
    } else {
        assert(batch =~= Seq::<DatabaseRow>::empty());
    }
}

/// The rows of one table.
pub struct TableRows {
    rows: Vec<DatabaseRow>,
}

impl TableRows {
    /// The rows in the order in which their ids were first written.
    pub closed spec fn view(&self) -> Seq<DatabaseRow> {
        self.rows@
    }

    /// Row ids are unique within the table.
    pub open spec fn wf(&self) -> bool {
        distinct_ids(self@)
    }

    pub fn new() -> (r: TableRows)
        ensures
            r@ == Seq::<DatabaseRow>::empty(),
            r.wf(),
    {
        TableRows { rows: Vec::new() }
    }

    /// A copy with the same rows.
    pub fn duplicate(&self) -> (r: TableRows)
        ensures
            r@ == self@,
    {
        let rows = self.list_rows(None).0;
        proof {
            assert(page_of(self@, None) =~= self@);
        }
        TableRows { rows }
    }

    /// The position of the row with the id, if the table has one.
    pub fn find_row(&self, row_id: &String) -> (r: Option<usize>)
        ensures
            r is Some <==> has_row(self@, row_id@),
            r is Some ==> r->0 < self@.len() && self@[r->0 as int].row_id@ == row_id@,
    {
        let mut i: usize = 0;
        while i < self.rows.len()
            invariant
                i <= self.rows@.len(),
                forall|j: int| 0 <= j < i ==> (#[trigger] self.rows@[j]).row_id@ != row_id@,
            decreases self.rows@.len() - i,
        {
            if self.rows[i].row_id == *row_id {
                return Some(i);
            }
            i = i + 1;
        }
        None
    }

    /// Writes one row: over the row with its id, or at the end.
    pub fn upsert_row(&mut self, row: &DatabaseRow)
        requires
            old(self).wf(),
        ensures
            final(self).wf(),
            final(self)@ == upsert_one(old(self)@, *row),
    {
        proof {
            lemma_upsert_one_distinct(self@, *row);
        }
        match self.find_row(&row.row_id) {
            Some(i) => {
                proof {
                    let k = row_index(self@, row.row_id@);
                    assert(self@[k].row_id@ == self@[i as int].row_id@);
                    assert(k == i);
                }
                self.rows[i] = row.duplicate();
            },
            None => {
                self.rows.push(row.duplicate());
            },
        }
    }

    /// Writes a batch. With `truncate` the batch replaces the whole content;
    /// without it each row is upserted by its id, first to last.
    pub fn batch_upsert_rows(&mut self, batch: &Vec<DatabaseRow>, truncate: bool)
        requires
            old(self).wf(),
        ensures
            final(self).wf(),
            final(self)@ == batch_result(old(self)@, batch@, truncate),
    {
        let mut next = TableRows::new();
        if !truncate {
            let mut k: usize = 0;
            while k < self.rows.len()
                invariant
                    k <= self.rows@.len(),
                    next.rows@ == self.rows@.take(k as int),
                decreases self.rows@.len() - k,
            {
                next.rows.push(self.rows[k].duplicate());
                proof {
                    assert(next.rows@ =~= self.rows@.take(k + 1));
                }
                k = k + 1;
            }
            proof {
                assert(next.rows@ =~= self.rows@);
            }
        }
        let ghost base = next@;
        let mut i: usize = 0;
        while i < batch.len()
            invariant
                i <= batch@.len(),
                next.wf(),
                next@ == upsert_all(base, batch@.take(i as int)),
            decreases batch@.len() - i,
        {
            proof {
                assert(batch@.take(i + 1).drop_last() =~= batch@.take(i as int));
            }
            next.upsert_row(&batch[i]);
            i = i + 1;
        }
        proof {
            assert(batch@.take(i as int) =~= batch@);
        }
        self.rows = next.rows;
    }

    /// The row with the id, if the table has one.
    pub fn load_row(&self, row_id: &String) -> (r: Option<DatabaseRow>)
        ensures
            r is Some <==> has_row(self@, row_id@),
            r is Some ==> self@.contains(r->0) && (r->0).row_id@ == row_id@,
    {
        match self.find_row(row_id) {
            Some(i) => {
                assert(self@[i as int] == self@[i as int]);
                Some(self.rows[i].duplicate())
            },
            None => None,
        }
    }

    /// One page of the rows, and the number of all rows.
    pub fn list_rows(&self, limit_offset: Option<(usize, usize)>) -> (r: (Vec<DatabaseRow>, usize))
        ensures
            r.0@ == page_of(self@, limit_offset),
            r.1 == self@.len(),
    {
        let total: usize = self.rows.len();
        let (start, end) = page_window(total, limit_offset);
        let mut out: Vec<DatabaseRow> = Vec::new();
        let mut i: usize = start;
        while i < end
            invariant
                start <= i <= end <= self.rows@.len(),
                out@ == self.rows@.subrange(start as int, i as int),
            decreases end - i,
        {
            out.push(self.rows[i].duplicate());
            proof {
                assert(out@ =~= self.rows@.subrange(start as int, i + 1));
            }
            i = i + 1;
        }
        (out, total)
    }
}

} // verus!
