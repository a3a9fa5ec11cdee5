//! The table "main_chain": the blocks of the main chain, one row for each height.
//!
//! Heights and ids are both unique. The rows are kept in order of height.

use super::error::{Error, SQLITE_CONSTRAINT};
use crate::data_types::{BlockHeight, ChainIndex, Id};
use std::collections::BTreeMap;
use vstd::prelude::*;

verus! {

/// The rows stand in order of strictly increasing height.
pub open spec fn chain_sorted(rows: Seq<ChainIndex>) -> bool {
    forall|i: int, j: int| 0 <= i < j < rows.len() ==> rows[i].height() < rows[j].height()
}

/// No two rows have the same id.
pub open spec fn chain_ids_unique(rows: Seq<ChainIndex>) -> bool {
    forall|i: int, j: int| 0 <= i < j < rows.len() ==> rows[i].spec_id() != rows[j].spec_id()
}

/// Some row has the height `height`.
pub open spec fn chain_has_height(rows: Seq<ChainIndex>, height: int) -> bool {
    exists|i: int| 0 <= i < rows.len() && #[trigger] rows[i].height() == height
}

/// Some row has the id `id`.
pub open spec fn chain_has_id(rows: Seq<ChainIndex>, id: Id) -> bool {
    exists|i: int| 0 <= i < rows.len() && #[trigger] rows[i].spec_id() == id
}

/// The number of rows whose height is less than `height`, in a table in order of height.
pub open spec fn chain_rank(rows: Seq<ChainIndex>, height: int) -> nat
    decreases rows.len(),
{
    if rows.len() == 0 {
        0
    } else if rows.last().height() < height {
        rows.len()
    } else {
        chain_rank(rows.drop_last(), height)
    }
}

/// The row at `height`, if there is one.
pub open spec fn chain_row_at(rows: Seq<ChainIndex>, height: int) -> Option<ChainIndex> {
    let k = chain_rank(rows, height) as int;
    if k < rows.len() && rows[k].height() == height {
        Some(rows[k])
    } else {
        None
    }
}

/// The id of the row at `height`, if there is one.
pub open spec fn chain_id_at(rows: Seq<ChainIndex>, height: int) -> Option<Id> {
    match chain_row_at(rows, height) {
        Some(row) => Some(row.spec_id()),
        None => None,
    }
}

/// The table after the row `row` has been inserted.
pub open spec fn chain_pushed(rows: Seq<ChainIndex>, row: ChainIndex) -> Seq<ChainIndex> {
    rows.insert(chain_rank(rows, row.height() as int) as int, row)
}

/// The table after its highest row has been deleted.
pub open spec fn chain_popped(rows: Seq<ChainIndex>) -> Seq<ChainIndex> {
    if rows.len() == 0 {
        rows
    } else {
        rows.drop_last()
    }
}

/// The first `limit` rows of `rows`, or all of them if there are fewer.
pub open spec fn at_most<T>(rows: Seq<T>, limit: nat) -> Seq<T> {
    if limit < rows.len() {
        rows.take(limit as int)
    } else {
        rows
    }
}

/// At most `limit` rows whose height is at least `min_height`, lowest first.
pub open spec fn chain_asc(rows: Seq<ChainIndex>, min_height: int, limit: nat) -> Seq<ChainIndex> {
    at_most(rows.skip(chain_rank(rows, min_height) as int), limit)
}

/// At most `limit` rows whose height is at most `max_height`, highest first.
pub open spec fn chain_desc(rows: Seq<ChainIndex>, max_height: int, limit: nat) -> Seq<
    ChainIndex,
> {
    at_most(rows.take(chain_rank(rows, max_height + 1) as int).reverse(), limit)
}

/// The heights among `heights` that have a row, each with the id of its row.
pub open spec fn chain_fetched(rows: Seq<ChainIndex>, heights: Seq<BlockHeight>) -> Map<
    BlockHeight,
    Id,
> {
    Map::new(
        |h: BlockHeight| heights.contains(h) && chain_has_height(rows, h as int),
        |h: BlockHeight| chain_id_at(rows, h as int).unwrap(),
    )
}

/// In a table in order of height, `chain_rank` splits the rows: those below
/// `height` come first, and the others follow.
pub proof fn lemma_chain_rank(rows: Seq<ChainIndex>, height: int)
    requires
        chain_sorted(rows),
    ensures
        chain_rank(rows, height) <= rows.len(),
        forall|i: int| 0 <= i < chain_rank(rows, height) ==> rows[i].height() < height,
        forall|i: int| chain_rank(rows, height) <= i < rows.len() ==> rows[i].height() >= height,
    decreases rows.len(),
{
    if rows.len() > 0 && !(rows.last().height() < height) {
        let front = rows.drop_last();
        lemma_chain_rank(front, height);
        assert forall|i: int| 0 <= i < chain_rank(rows, height) implies rows[i].height()
            < height by {
            assert(rows[i] == front[i]);
        }
        assert forall|i: int| chain_rank(rows, height) <= i < rows.len() implies rows[i].height()
            >= height by {
            if i < front.len() {
                assert(rows[i] == front[i]);
            }
        }
    }
}

/// A position that splits the rows as `chain_rank` does is `chain_rank`.
pub proof fn lemma_chain_rank_is(rows: Seq<ChainIndex>, height: int, k: int)
    requires
        chain_sorted(rows),
        0 <= k <= rows.len(),
        forall|i: int| 0 <= i < k ==> rows[i].height() < height,
        forall|i: int| k <= i < rows.len() ==> rows[i].height() >= height,
    ensures
        chain_rank(rows, height) == k,
{
    lemma_chain_rank(rows, height);
    let r = chain_rank(rows, height) as int;
    if r < k {
        assert(rows[r].height() < height);
    } else if k < r {
        assert(rows[k].height() >= height);
    }
}

/// A height has a row exactly if `chain_id_at` finds one.
pub proof fn lemma_chain_id_at(rows: Seq<ChainIndex>, height: int)
    requires
        chain_sorted(rows),
    ensures
        chain_has_height(rows, height) <==> chain_id_at(rows, height) is Some,
        forall|i: int|
            0 <= i < rows.len() && rows[i].height() == height ==> chain_id_at(rows, height)
                == Some(rows[i].spec_id()),
{
    lemma_chain_rank(rows, height);
    let k = chain_rank(rows, height) as int;
    assert forall|i: int| 0 <= i < rows.len() && rows[i].height() == height implies i == k by {
        if i < k {
        } else if k < i {
            assert(rows[k].height() >= height);
        }
    }
    if chain_id_at(rows, height) is Some {
        assert(rows[k].height() == height);
    }
}

/// Deleting the highest row and inserting the same row again restores the
/// table exactly: the insertion is accepted, and the rows are those of before.
pub proof fn lemma_pop_then_push_restores(rows: Seq<ChainIndex>)
    requires
        chain_sorted(rows),
        chain_ids_unique(rows),
        rows.len() > 0,
    ensures
        !chain_has_height(chain_popped(rows), rows.last().height() as int),
        !chain_has_id(chain_popped(rows), rows.last().spec_id()),
        chain_pushed(chain_popped(rows), rows.last()) == rows,
{
    let front = rows.drop_last();
    let last = rows.last();
    let n = rows.len() - 1;
    assert forall|i: int| 0 <= i < front.len() implies front[i].height() < last.height()
        && front[i].spec_id() != last.spec_id() by {
        assert(front[i] == rows[i]);
        assert(rows[i].height() < rows[n].height());
        assert(rows[i].spec_id() != rows[n].spec_id());
    }
    assert forall|i: int, j: int| 0 <= i < j < front.len() implies front[i].height()
        < front[j].height() by {
        assert(front[i] == rows[i] && front[j] == rows[j]);
    }
    lemma_chain_rank_is(front, last.height() as int, front.len() as int);
    assert(front.insert(front.len() as int, last) =~= rows);
}

/// An insertion that is accepted keeps heights and ids unique, and the row is
/// then found at its height.
pub proof fn lemma_push_keeps_unique(rows: Seq<ChainIndex>, row: ChainIndex)
    requires
        chain_sorted(rows),
        chain_ids_unique(rows),
        !chain_has_height(rows, row.height() as int),
        !chain_has_id(rows, row.spec_id()),
    ensures
        chain_sorted(chain_pushed(rows, row)),
        chain_ids_unique(chain_pushed(rows, row)),
        chain_row_at(chain_pushed(rows, row), row.height() as int) == Some(row),
{
    lemma_chain_rank(rows, row.height() as int);
    let k = chain_rank(rows, row.height() as int) as int;
    let after = chain_pushed(rows, row);
    assert forall|i: int| 0 <= i < rows.len() implies rows[i].height() != row.height()
        && rows[i].spec_id() != row.spec_id() by {}
    assert forall|i: int, j: int| 0 <= i < j < after.len() implies after[i].height()
        < after[j].height() && after[i].spec_id() != after[j].spec_id() by {
        let a = if i < k { i } else { i - 1 };
        let b = if j < k { j } else { j - 1 };
        if i != k && j != k {
            assert(after[i] == rows[a] && after[j] == rows[b]);
        } else if i == k {
            assert(after[j] == rows[b]);
            assert(rows[b].height() >= row.height());
        } else {
            assert(after[i] == rows[a]);
        }
    }
    assert(after[k] == row);
    lemma_chain_rank(after, row.height() as int);
    let r = chain_rank(after, row.height() as int) as int;
    if r < k {
        assert(after[r].height() < after[k].height());
    } else if k < r {
        assert(after[k].height() < row.height());
    }
}

/// Heights are ordered as the integers are, which a map keyed by heights relies on.
proof fn lemma_heights_ordered()
    ensures
        vstd::laws_cmp::obeys_cmp::<BlockHeight>(),
{
    broadcast use vstd::laws_cmp::group_laws_cmp;

}

/// The table "main_chain".
pub struct MainChainTable {
    rows: Vec<ChainIndex>,
}

impl View for MainChainTable {
    type V = Seq<ChainIndex>;

    closed spec fn view(&self) -> Seq<ChainIndex> {
        self.rows@
    }
}

impl MainChainTable {
    /// The constraints of the table: the rows stand in order of height, and no id occurs twice.
    pub open spec fn wf(&self) -> bool {
        &&& chain_sorted(self@)
        &&& chain_ids_unique(self@)
    }

    /// An empty table.
    pub fn new() -> (t: Self)
        ensures
            t.wf(),
            t@ == Seq::<ChainIndex>::empty(),
    {
        MainChainTable { rows: Vec::new() }
    }

    /// A copy of the table.
    pub fn copy(&self) -> (t: Self)
        ensures
            t@ == self@,
    {
        let mut rows: Vec<ChainIndex> = Vec::new();
        let mut i: usize = 0;
        while i < self.rows.len()
            invariant
                i <= self.rows@.len(),
                rows@ == self.rows@.take(i as int),
            decreases self.rows@.len() - i,
        {
            rows.push(self.rows[i]);
            assert(rows@ =~= self.rows@.take(i + 1));
            i = i + 1;
        }
        assert(self.rows@.take(i as int) =~= self.rows@);
        MainChainTable { rows }
    }

    /// The number of rows.
    pub fn len(&self) -> (n: usize)
        ensures
            n == self@.len(),
    {
        self.rows.len()
    }

    /// The number of rows below `height`.
    fn rank(&self, height: BlockHeight) -> (k: usize)
        requires
            self.wf(),
        ensures
            k == chain_rank(self@, height as int),
            k <= self@.len(),
    {
        let mut lo: usize = 0;
        let mut hi: usize = self.rows.len();
        while lo < hi
            invariant
                lo <= hi <= self.rows@.len(),
                self.wf(),
                forall|i: int| 0 <= i < lo ==> self.rows@[i].height() < height,
                forall|i: int| hi <= i < self.rows@.len() ==> self.rows@[i].height() >= height,
            decreases hi - lo,
        {
            let mid = lo + (hi - lo) / 2;
            if self.rows[mid].height() < height {
                assert forall|i: int| 0 <= i < mid + 1 implies self.rows@[i].height()
                    < height by {
                    if i < mid {
                        assert(self.rows@[i].height() < self.rows@[mid as int].height());
                    }
                }
                lo = mid + 1;
            } else {
                assert forall|i: int| mid <= i < self.rows@.len() implies self.rows@[i].height()
                    >= height by {
                    if mid < i {
                        assert(self.rows@[mid as int].height() < self.rows@[i].height());
                    }
                }
                hi = mid;
            }
        }
        proof {
            lemma_chain_rank_is(self@, height as int, lo as int);
        }
        lo
    }

    /// Whether some row has the id `id`.
    fn has_id(&self, id: &Id) -> (r: bool)
        ensures
            r == chain_has_id(self@, *id),
    {
        let mut i: usize = 0;
        while i < self.rows.len()
            invariant
                i <= self.rows@.len(),
                forall|j: int| 0 <= j < i ==> self.rows@[j].spec_id() != *id,
            decreases self.rows@.len() - i,
        {
            if self.rows[i].id().same(id) {
                return true;
            }
            i = i + 1;
        }
        false
    }

    /// Inserts `row`, unless a row with its height or with its id is there.
    pub fn push(&mut self, row: &ChainIndex) -> (r: Result<(), Error>)
        requires
            old(self).wf(),
        ensures
            final(self).wf(),
            r is Ok <==> !chain_has_height(old(self)@, row.height() as int) && !chain_has_id(
                old(self)@,
                row.spec_id(),
            ),
            r is Ok ==> final(self)@ == chain_pushed(old(self)@, *row),
            r is Err ==> final(self)@ == old(self)@ && r->Err_0.code == SQLITE_CONSTRAINT,
    {
        let k = self.rank(row.height());
        proof {
            lemma_chain_rank(self@, row.height() as int);
            lemma_chain_id_at(self@, row.height() as int);
        }
        if k < self.rows.len() && self.rows[k].height() == row.height() {
            return Err(Error::new(SQLITE_CONSTRAINT));
        }
        if self.has_id(row.id()) {
            return Err(Error::new(SQLITE_CONSTRAINT));
        }
        self.rows.insert(k, *row);
        proof {
            let before = old(self)@;
            let after = self@;
            assert(after == before.insert(k as int, *row));
            assert forall|i: int, j: int| 0 <= i < j < after.len() implies after[i].height()
                < after[j].height() by {
                if j < k {
                    assert(after[i] == before[i] && after[j] == before[j]);
                } else if j == k {
                    assert(after[i] == before[i]);
                } else if i < k {
                    assert(after[i] == before[i] && after[j] == before[j - 1]);
                } else if i == k {
                    assert(after[j] == before[j - 1]);
                } else {
                    assert(after[i] == before[i - 1] && after[j] == before[j - 1]);
                }
            }
            assert forall|i: int, j: int| 0 <= i < j < after.len() implies after[i].spec_id()
                != after[j].spec_id() by {
                let a = if i < k { i } else { i - 1 };
                let b = if j < k { j } else { j - 1 };
                if i != k && j != k {
                    assert(after[i] == before[a] && after[j] == before[b]);
                } else if i == k {
                    assert(after[j] == before[b]);
                } else {
                    assert(after[i] == before[a]);
                }
            }
        }
        Ok(())
    }

    /// Deletes the row of the greatest height, if the table has a row.
    pub fn pop(&mut self)
        requires
            old(self).wf(),
        ensures
            final(self).wf(),
            final(self)@ == chain_popped(old(self)@),
    {
        if self.rows.len() > 0 {
            self.rows.pop();
            assert(self@ =~= old(self)@.drop_last());
        }
    }

    /// The row at `height`, if there is one.
    pub fn row_at(&self, height: BlockHeight) -> (r: Option<ChainIndex>)
        requires
            self.wf(),
        ensures
            r == chain_row_at(self@, height as int),
    {
        let k = self.rank(height);
        if k < self.rows.len() && self.rows[k].height() == height {
            Some(self.rows[k])
        } else {
            None
        }
    }

    /// The id of the row at `height`, if there is one.
    pub fn fetch_one(&self, height: BlockHeight) -> (r: Option<Id>)
        requires
            self.wf(),
        ensures
            r == chain_id_at(self@, height as int),
    {
        match self.row_at(height) {
            Some(row) => Some(*row.id()),
            None => None,
        }
    }

    /// The rows at the heights `heights`, as a map from the height to the id.
    pub fn fetch(&self, heights: &[BlockHeight]) -> (r: BTreeMap<BlockHeight, Id>)
        requires
            self.wf(),
        ensures
            r@ == chain_fetched(self@, heights@),
    {
        let mut found: BTreeMap<BlockHeight, Id> = BTreeMap::new();
        let mut i: usize = 0;
        while i < heights.len()
            invariant
                i <= heights@.len(),
                self.wf(),
                found@ == chain_fetched(self@, heights@.take(i as int)),
            decreases heights@.len() - i,
        {
            let h = heights[i];
            let id = self.fetch_one(h);
            let ghost before = found@;
            proof {
                lemma_heights_ordered();
                lemma_chain_id_at(self@, h as int);
                let shorter = heights@.take(i as int);
                let longer = heights@.take(i + 1);
                assert(longer == shorter.push(h));
                assert forall|x: BlockHeight| longer.contains(x) <==> shorter.contains(x) || x
                    == h by {
                    if shorter.contains(x) {
                        let j = choose|j: int| 0 <= j < shorter.len() && shorter[j] == x;
                        assert(longer[j] == x);
                    }
                    if x == h {
                        assert(longer[i as int] == x);
                    }
                }
            }
            match id {
                Some(id) => {
                    found.insert(h, id);
                    assert(found@ == before.insert(h, id));
                },
                None => {},
            }
            assert(found@ =~= chain_fetched(self@, heights@.take(i + 1)));
            i = i + 1;
        }
        assert(heights@.take(i as int) =~= heights@);
        found
    }

    /// At most `limit` rows whose height is at least `min_height`, lowest first.
    pub fn fetch_asc(&self, min_height: BlockHeight, limit: u32) -> (r: Vec<ChainIndex>)
        requires
            self.wf(),
        ensures
            r@ == chain_asc(self@, min_height as int, limit as nat),
    {
        let start = self.rank(min_height);
        let mut found: Vec<ChainIndex> = Vec::new();
        let mut i: usize = start;
        while i < self.rows.len() && found.len() < limit as usize
            invariant
                start <= i <= self.rows@.len(),
                found@.len() == i - start,
                found@.len() <= limit,
                found@ == self.rows@.subrange(start as int, i as int),
            decreases self.rows@.len() - i,
        {
            found.push(self.rows[i]);
            assert(found@ =~= self.rows@.subrange(start as int, i + 1));
            i = i + 1;
        }
        assert(found@ =~= chain_asc(self@, min_height as int, limit as nat));
        found
    }

    /// At most `limit` rows whose height is at most `max_height`, highest first.
    pub fn fetch_desc(&self, max_height: BlockHeight, limit: u32) -> (r: Vec<ChainIndex>)
        requires
            self.wf(),
        ensures
            r@ == chain_desc(self@, max_height as int, limit as nat),
    {
        let end = if max_height == i64::MAX {
            proof {
                lemma_chain_rank(self@, max_height + 1);
            }
            self.rows.len()
        } else {
            self.rank(max_height + 1)
        };
        let mut found: Vec<ChainIndex> = Vec::new();
        let mut i: usize = end;
        while 0 < i && found.len() < limit as usize
            invariant
                i <= end <= self.rows@.len(),
                found@.len() == end - i,
                found@.len() <= limit,
                forall|j: int| 0 <= j < found@.len() ==> found@[j] == self.rows@[end - 1 - j],
            decreases i,
        {
            i = i - 1;
            found.push(self.rows[i]);
        }
        assert(found@ =~= chain_desc(self@, max_height as int, limit as nat));
        found
    }
}

} // verus!
